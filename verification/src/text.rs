//! Decimal rendering and small string helpers with stated behaviour.
use vstd::prelude::*;
use vstd::string::StringExecFns;

verus! {

/// The ASCII digit character for a value below ten.
pub open spec fn digit_char(d: int) -> char {
    (('0' as int) + d) as char
}

/// The decimal rendering of `n`, most significant digit first, with no
/// leading zeros (zero renders as a single `0`).
pub open spec fn decimal(n: nat) -> Seq<char>
    decreases n,
{
    if n < 10 {
        seq![digit_char(n as int)]
    } else {
        decimal(n / 10) + seq![digit_char((n % 10) as int)]
    }
}

fn digit_str(d: u64) -> (s: &'static str)
    requires
        d < 10,
    ensures
        s@ == seq![digit_char(d as int)],
{
    proof {
        reveal_strlit("0");
        reveal_strlit("1");
        reveal_strlit("2");
        reveal_strlit("3");
        reveal_strlit("4");
        reveal_strlit("5");
        reveal_strlit("6");
        reveal_strlit("7");
        reveal_strlit("8");
        reveal_strlit("9");
    }
    match d {
        0 => "0",
        1 => "1",
        2 => "2",
        3 => "3",
        4 => "4",
        5 => "5",
        6 => "6",
        7 => "7",
        8 => "8",
        _ => "9",
    }
}

/// Appends the decimal rendering of `n` to `out`.
pub fn push_decimal(out: &mut String, n: u64)
    ensures
        final(out)@ == old(out)@ + decimal(n as nat),
    decreases n,
{
    if n < 10 {
        out.append(digit_str(n));
    } else {
        push_decimal(out, n / 10);
        out.append(digit_str(n % 10));
    }
}

/// The decimal rendering of `n` as a new string.
pub fn u64_to_string(n: u64) -> (s: String)
    ensures
        s@ == decimal(n as nat),
{
    let mut s = String::new();
    push_decimal(&mut s, n);
    s
}

/// What `str::to_lowercase` gives for a string.
pub uninterp spec fn lowercase(s: Seq<char>) -> Seq<char>;

/// `str::to_lowercase`. The contract claims only that the result is the
/// named lowercase form of the argument.
#[verifier::external_body]
pub(crate) fn to_lowercase(s: &str) -> (r: String)
    ensures
        r@ == lowercase(s@),
{
    s.to_lowercase()
}

/// Appends `s` to a list of strings.
pub(crate) fn push_text(v: &mut Vec<String>, s: &str)
    ensures
        final(v)@.map_values(|t: String| t@) == old(v)@.map_values(|t: String| t@).push(s@),
{
    let ghost before = v@;
    v.push(s.to_string());
    proof {
        assert(v@.map_values(|t: String| t@) =~= before.map_values(|t: String| t@).push(s@));
    }
}

/// Appends an owned string to a list of strings.
pub(crate) fn push_string(v: &mut Vec<String>, s: String)
    ensures
        final(v)@.map_values(|t: String| t@) == old(v)@.map_values(|t: String| t@).push(s@),
{
    let ghost before = v@;
    let ghost sv = s@;
    v.push(s);
    proof {
        assert(v@.map_values(|t: String| t@) =~= before.map_values(|t: String| t@).push(sv));
    }
}

/// Whether two strings hold the same characters.
pub(crate) fn text_equals(a: &String, b: &str) -> (r: bool)
    ensures
        r == (a@ == b@),
{
    let t = b.to_string();
    *a == t
}

/// The view of an optional string.
pub open spec fn opt_view(s: Option<String>) -> Option<Seq<char>> {
    match s {
        Some(t) => Some(t@),
        None => None,
    }
}

/// What `std::path::Path::extension` gives for a file name, as a string:
/// the part of the last path component after its last dot, if any.
pub uninterp spec fn path_extension(name: Seq<char>) -> Option<Seq<char>>;

/// `std::path::Path::extension` of a file name, converted to a string
/// (the extension of a `&str` path is always valid UTF-8). The contract
/// claims only that the result is the named extension of the name.
#[verifier::external_body]
pub(crate) fn file_extension(name: &str) -> (r: Option<String>)
    ensures
        opt_view(r) == path_extension(name@),
{
    match std::path::Path::new(name).extension() {
        Some(e) => match e.to_str() {
            Some(t) => Some(t.to_string()),
            None => None,
        },
        None => None,
    }
}

/// The lowercase extension of a file name.
pub open spec fn lowercase_extension(name: Seq<char>) -> Option<Seq<char>> {
    match path_extension(name) {
        Some(e) => Some(lowercase(e)),
        None => None,
    }
}

} // verus!
