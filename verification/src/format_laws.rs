//! What formats come to in numbers and in words.

use crate::format::Format;
use crate::text;
use vstd::prelude::*;

verus! {

/// The digit that `c` is.
pub open spec fn digit_value(c: char) -> int {
    c as int - 0x30
}

/// The number that a run of digits spells.
pub open spec fn spelled(s: Seq<char>) -> int
    decreases s.len(),
{
    if s.len() == 0 {
        0
    } else {
        spelled(s.drop_last()) * 10 + digit_value(s.last())
    }
}

/// A number in decimal is made of digits, spells the number, and has no leading zero.
pub proof fn decimals_spell_the_number(n: nat)
    ensures
        text::decimal(n).len() >= 1,
        forall|i: int|
            0 <= i < text::decimal(n).len() ==> '0' <= #[trigger] text::decimal(n)[i] <= '9',
        spelled(text::decimal(n)) == n,
        text::decimal(n).len() > 1 ==> text::decimal(n)[0] != '0',
        text::decimal(n).len() == 1 <==> n < 10,
    decreases n,
{
    let s = text::decimal(n);
    if n < 10 {
        assert(s.drop_last().len() == 0);
        assert(spelled(s.drop_last()) == 0);
        assert(s.last() == text::digit(n));
    } else {
        decimals_spell_the_number(n / 10);
        let front = text::decimal(n / 10);
        assert(s.drop_last() =~= front);
        assert(s.last() == text::digit(n % 10));
        assert(s[0] == front[0]);
        if front.len() == 1 {
            assert(spelled(front.drop_last()) == 0);
            assert(front.last() == front[0]);
        }
        assert forall|i: int| 0 <= i < s.len() implies '0' <= #[trigger] s[i] <= '9' by {
            if i < front.len() {
                assert(s[i] == front[i]);
            }
        }
    }
}

/// Joining nothing gives nothing, joining one text gives that text, and joining two lists
/// one after the other puts the separator between what each of them gives.
pub proof fn joining_puts_a_separator_between(
    a: Seq<Seq<char>>,
    b: Seq<Seq<char>>,
    between: Seq<char>,
)
    ensures
        text::joined(Seq::empty(), between) == Seq::<char>::empty(),
        a.len() == 1 ==> text::joined(a, between) == a[0],
        a.len() > 0 && b.len() > 0 ==> text::joined(a + b, between) == text::joined(a, between)
            + between + text::joined(b, between),
    decreases b.len(),
{
    if a.len() > 0 && b.len() > 0 {
        let front = b.drop_last();
        assert((a + b).drop_last() =~= a + front);
        assert((a + b).last() == b.last());
        if front.len() == 0 {
            assert(a + front =~= a);
            assert(text::joined(b, between) == b[0]);
        } else {
            joining_puts_a_separator_between(a, front, between);
            assert(text::joined(a + b, between) =~= text::joined(a, between) + between
                + text::joined(b, between));
        }
    }
}

/// A packet holds as many whole frames as fit its duration, a sample of each channel in
/// each, and two bytes for each sample.
pub proof fn packets_hold_their_duration(f: Format)
    ensures
        f.spec_frames() * 1000 <= f.rate * f.frame_ms < (f.spec_frames() + 1) * 1000,
        f.spec_samples() == f.spec_frames() * f.channels,
        f.spec_payload() == 2 * (f.spec_frames() * f.channels),
{
    assert(0 <= f.rate * f.frame_ms) by (nonlinear_arith);
}

/// A session may use eight rates, one or two channels, and packets of 5, 10 or 20 ms;
/// nothing else.
pub proof fn what_a_session_may_use(f: Format)
    ensures
        f.valid() <==> {
            &&& seq![8000u32, 16000, 22050, 24000, 32000, 44100, 48000, 96000].contains(f.rate)
            &&& f.channels == 1 || f.channels == 2
            &&& seq![5u8, 10, 20].contains(f.frame_ms)
        },
        f.complaint() is None <==> f.valid(),
{
    let rates = seq![8000u32, 16000, 22050, 24000, 32000, 44100, 48000, 96000];
    let durations = seq![5u8, 10, 20];
    if f.valid() {
        assert(rates[0] == 8000 && rates[1] == 16000 && rates[2] == 22050 && rates[3] == 24000);
        assert(rates[4] == 32000 && rates[5] == 44100 && rates[6] == 48000 && rates[7] == 96000);
        assert(durations[0] == 5 && durations[1] == 10 && durations[2] == 20);
    }
}

/// A refused format is told what is wrong with it, with the number that is: the rate
/// before the channels, the channels before the duration.
pub proof fn a_refused_format_is_told_why(f: Format)
    requires
        !f.valid(),
    ensures
        ({
            let good_rate = (Format { channels: 1, frame_ms: 10, ..f }).valid();
            let good_channels = f.channels == 1 || f.channels == 2;
            f.complaint() == Some(
                if !good_rate {
                    "unsupported sample rate "@ + text::decimal(f.rate as nat)
                } else if !good_channels {
                    "channels must be 1 or 2, got "@ + text::decimal(f.channels as nat)
                } else {
                    "frame_ms must be 5, 10 or 20, got "@ + text::decimal(f.frame_ms as nat)
                },
            )
        }),
{
}

/// A format in words shows its rate, its layout and its duration.
pub proof fn a_format_reads_well(f: Format)
    ensures
        f.channels == 1 ==> f.words() == text::decimal(f.rate as nat) + " Hz "@ + "mono"@
            + " s16le "@ + text::decimal(f.frame_ms as nat) + " ms"@,
        f.channels == 2 ==> f.words() == text::decimal(f.rate as nat) + " Hz "@ + "stereo"@
            + " s16le "@ + text::decimal(f.frame_ms as nat) + " ms"@,
{
}

} // verus!
