//! The text of the status bar: when the sample was taken, how long ago, on
//! which host, by which version, and in which mode it is shown.

use vstd::prelude::*;
use vstd::string::StringExecFns;

verus! {

/// What parts the pieces of the status bar.
pub open spec fn spacing() -> Seq<char> {
    "     "@
}

/// What parts the pieces of the status bar.
pub fn get_spacing() -> (r: &'static str)
    ensures
        r@ == spacing(),
{
    "     "
}

/// The digit that writes `d`.
pub open spec fn digit_char(d: nat) -> char
    recommends
        d < 10,
{
    if d == 0 {
        '0'
    } else if d == 1 {
        '1'
    } else if d == 2 {
        '2'
    } else if d == 3 {
        '3'
    } else if d == 4 {
        '4'
    } else if d == 5 {
        '5'
    } else if d == 6 {
        '6'
    } else if d == 7 {
        '7'
    } else if d == 8 {
        '8'
    } else {
        '9'
    }
}

/// The decimal digits that write `n`, without leading zeros.
pub open spec fn decimal_digits(n: nat) -> Seq<char>
    decreases n,
{
    if n < 10 {
        seq![digit_char(n)]
    } else {
        decimal_digits(n / 10).push(digit_char(n % 10))
    }
}

/// The text of one digit.
fn digit_text(d: u64) -> (r: &'static str)
    requires
        d < 10,
    ensures
        r@ == seq![digit_char(d as nat)],
{
    let r = if d == 0 {
        "0"
    } else if d == 1 {
        "1"
    } else if d == 2 {
        "2"
    } else if d == 3 {
        "3"
    } else if d == 4 {
        "4"
    } else if d == 5 {
        "5"
    } else if d == 6 {
        "6"
    } else if d == 7 {
        "7"
    } else if d == 8 {
        "8"
    } else {
        "9"
    };
    proof {
        reveal_strlit("0");
        reveal_strlit("1");
        reveal_strlit("2");
        reveal_strlit("3");
        reveal_strlit("4");
        reveal_strlit("5");
        reveal_strlit("6");
        reveal_strlit("7");
        reveal_strlit("8");
        reveal_strlit("9");
        assert(r@ =~= seq![digit_char(d as nat)]);
    }
    r
}

/// Writes `n` in decimal digits.
pub fn decimal(n: u64) -> (text: String)
    ensures
        text@ == decimal_digits(n as nat),
{
    let mut low: Vec<u64> = Vec::new();
    let mut rest: u64 = n;
    while rest >= 10
        invariant
            decimal_digits(n as nat) == decimal_digits(rest as nat) + Seq::new(
                low@.len(),
                |i: int| digit_char(low@[low@.len() - 1 - i] as nat),
            ),
            forall|i: int| 0 <= i < low@.len() ==> low@[i] < 10,
        decreases rest,
    {
        let ghost before = low@;
        let ghost tail = Seq::new(before.len(), |i: int| digit_char(before[before.len() - 1 - i] as nat));
        low.push(rest % 10);
        proof {
            let now = Seq::new(low@.len(), |i: int| digit_char(low@[low@.len() - 1 - i] as nat));
            assert(now =~= seq![digit_char((rest % 10) as nat)] + tail);
            assert(decimal_digits(rest as nat) == decimal_digits((rest / 10) as nat).push(
                digit_char((rest % 10) as nat),
            ));
            assert(decimal_digits(rest as nat) + tail =~= decimal_digits((rest / 10) as nat) + now);
        }
        rest = rest / 10;
    }
    let mut text = String::new();
    text.append(digit_text(rest));
    let ghost head = decimal_digits(rest as nat);
    let mut k: usize = low.len();
    while k > 0
        invariant
            k <= low@.len(),
            forall|i: int| 0 <= i < low@.len() ==> low@[i] < 10,
            text@ == head + Seq::new(
                (low@.len() - k) as nat,
                |i: int| digit_char(low@[low@.len() - 1 - i] as nat),
            ),
        decreases k,
    {
        k -= 1;
        text.append(digit_text(low[k]));
        assert(text@ =~= head + Seq::new(
            (low@.len() - k) as nat,
            |i: int| digit_char(low@[low@.len() - 1 - i] as nat),
        ));
    }
    text
}

/// The text of the status bar: the time of the sample, the seconds elapsed,
/// the host, the version and the mode, parted by the spacing; a paused view
/// says so at the end.
pub open spec fn content(
    time: Seq<char>,
    elapsed_secs: u64,
    hostname: Seq<char>,
    version: Seq<char>,
    view_mode: Seq<char>,
    paused: bool,
) -> Seq<char> {
    let shown = time + spacing() + "Elapsed: "@ + decimal_digits(elapsed_secs as nat) + "s"@
        + spacing() + hostname + spacing() + version + spacing() + view_mode;
    if paused {
        shown + spacing() + " live-paused"@
    } else {
        shown
    }
}

/// Puts the text of the status bar together. `time` is the time of the
/// sample as it is to be shown.
pub fn get_content(
    time: &str,
    elapsed_secs: u64,
    hostname: &str,
    version: &str,
    view_mode: &str,
    paused: bool,
) -> (text: String)
    ensures
        text@ == content(time@, elapsed_secs, hostname@, version@, view_mode@, paused),
{
    let mut text = String::new();
    text.append(time);
    text.append(get_spacing());
    text.append("Elapsed: ");
    text.append(decimal(elapsed_secs).as_str());
    text.append("s");
    text.append(get_spacing());
    text.append(hostname);
    text.append(get_spacing());
    text.append(version);
    text.append(get_spacing());
    text.append(view_mode);
    if paused {
        text.append(get_spacing());
        text.append(" live-paused");
    }
    assert(text@ =~= content(time@, elapsed_secs, hostname@, version@, view_mode@, paused));
    text
}

} // verus!
