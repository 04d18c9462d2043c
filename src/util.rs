use vstd::prelude::*;
use vstd::string::*;

verus! {

/// What `coloured_strings::colour(text, "red")` returns: the text between the
/// escape sequences that turn red on and reset the style.
pub open spec fn red_text(text: Seq<char>) -> Seq<char> {
    seq!['\x1b', '[', '3', '1', 'm'] + text + seq!['\x1b', '[', '0', 'm']
}

/// Relies on `coloured_strings::colour` with the colour "red": it returns
/// `"\x1b[31m"`, the text, then `"\x1b[0m"`.
#[verifier::external_body]
fn red(text: &str) -> (r: String)
    ensures
        r@ == red_text(text@),
{
    coloured_strings::colour(text, "red")
}

/// Relies on `String`'s `FromIterator<char>`: the characters in order.
#[verifier::external_body]
pub(crate) fn chars_to_string(chars: &[char]) -> (r: String)
    ensures
        r@ == chars@,
{
    chars.iter().collect()
}

/// The characters of `s`.
pub fn string_chars(s: &str) -> (r: Vec<char>)
    ensures
        r@ == s@,
{
    let n = s.unicode_len();
    let mut out: Vec<char> = Vec::new();
    let mut k: usize = 0;
    while k < n
        invariant
            n == s@.len(),
            k <= n,
            out@ == s@.subrange(0, k as int),
        decreases n - k,
    {
        out.push(s.get_char(k));
        k = k + 1;
        assert(out@ =~= s@.subrange(0, k as int));
    }
    assert(s@.subrange(0, n as int) =~= s@);
    out
}

/// The source line with the characters `start..=end` highlighted in red,
/// on a line of its own.
pub open spec fn spec_error_message(input: Seq<char>, start: int, end: int) -> Seq<char> {
    seq!['\n'] + input.subrange(0, start) + red_text(input.subrange(start, end + 1))
        + input.subrange(end + 1, input.len() as int)
}

/// Renders `input` on a new line with the characters `start..=end` in red.
pub fn error_message(input: &str, start: usize, end: usize) -> (r: String)
    requires
        start <= end < input@.len(),
    ensures
        r@ == spec_error_message(input@, start as int, end as int),
{
    let n = input.unicode_len();
    proof {
        reveal_strlit("\n");
    }
    let mut out = String::from_str("\n");
    out.append(input.substring_char(0, start));
    let span = red(input.substring_char(start, end + 1));
    out.append(span.as_str());
    out.append(input.substring_char(end + 1, n));
    out
}

} // verus!
