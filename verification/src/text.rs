//! Character-level helpers shared by the parsers and the label builders.
use vstd::prelude::*;

verus! {

/// What std's `str::to_lowercase` returns for a string: the Unicode lowercase
/// mapping, which depends on the string alone.
pub uninterp spec fn lowercase_of(s: Seq<char>) -> Seq<char>;

/// Calls std's `String::push`. Trusted: std documents that `push` appends the
/// given `char` to the end of the string and changes nothing else.
#[verifier::external_body]
pub(crate) fn push_char(s: &mut String, c: char)
    ensures
        final(s)@ == old(s)@.push(c),
{
    s.push(c);
}

/// Whether `c` is an ASCII character.
pub open spec fn is_ascii_char(c: char) -> bool {
    c <= '\u{7f}'
}

/// Whether every character of `s` is ASCII.
pub open spec fn is_ascii_text(s: Seq<char>) -> bool {
    forall|i: int| 0 <= i < s.len() ==> is_ascii_char(#[trigger] s[i])
}

/// Whether `c` is one of the ASCII capitals `A` to `Z`.
pub open spec fn is_ascii_upper(c: char) -> bool {
    'A' <= c && c <= 'Z'
}

/// `c` with an ASCII capital turned into its small letter.
pub open spec fn ascii_lower_char(c: char) -> char {
    if is_ascii_upper(c) {
        ((c as u32) + 32) as char
    } else {
        c
    }
}

/// `s` with every ASCII capital turned into its small letter.
pub open spec fn ascii_lower(s: Seq<char>) -> Seq<char> {
    s.map_values(|c: char| ascii_lower_char(c))
}

/// Calls std's `str::to_lowercase`. Trusted: its result is the Unicode
/// lowercase form of `s`, a function of `s` alone, named `lowercase_of`;
/// on ASCII text that form maps `A` to `Z` onto `a` to `z` and keeps every
/// other character. Nothing is stated of other text.
#[verifier::external_body]
pub(crate) fn lowercase(s: &str) -> (r: String)
    ensures
        r@ == lowercase_of(s@),
        is_ascii_text(s@) ==> r@ == ascii_lower(s@),
{
    s.to_lowercase()
}

/// The characters of `s`, in order.
pub fn chars_of(s: &str) -> (v: Vec<char>)
    ensures
        v@ == s@,
{
    let mut v: Vec<char> = Vec::new();
    for c in it: s.chars()
        invariant
            v@ == it.seq().take(it.index() as int),
    {
        v.push(c);
    }
    v
}

/// A `String` holding exactly the characters of `s[from..to]`.
pub fn string_from_chars(s: &Vec<char>, from: usize, to: usize) -> (r: String)
    requires
        from <= to <= s.len(),
    ensures
        r@ == s@.subrange(from as int, to as int),
{
    let mut r = String::new();
    let mut i = from;
    while i < to
        invariant
            from <= i <= to <= s.len(),
            r@ == s@.subrange(from as int, i as int),
        decreases to - i,
    {
        push_char(&mut r, s[i]);
        i = i + 1;
    }
    r
}

/// `a` followed by `b`.
pub fn concat_strings(a: &String, b: &String) -> (r: String)
    ensures
        r@ == a@ + b@,
{
    let bs = chars_of(b.as_str());
    let mut r = a.clone();
    let mut i: usize = 0;
    while i < bs.len()
        invariant
            i <= bs.len(),
            bs@ == b@,
            r@ == a@ + b@.take(i as int),
        decreases bs.len() - i,
    {
        push_char(&mut r, bs[i]);
        i = i + 1;
    }
    r
}

/// The decimal digit for `d`, for `d < 10`.
pub open spec fn digit_char(d: nat) -> char {
    if d == 0 { '0' }
    else if d == 1 { '1' }
    else if d == 2 { '2' }
    else if d == 3 { '3' }
    else if d == 4 { '4' }
    else if d == 5 { '5' }
    else if d == 6 { '6' }
    else if d == 7 { '7' }
    else if d == 8 { '8' }
    else { '9' }
}

/// The decimal notation of `n`, without sign or leading zeros, as `format!` writes it.
pub open spec fn decimal(n: nat) -> Seq<char>
    decreases n,
{
    if n < 10 {
        seq![digit_char(n)]
    } else {
        decimal(n / 10).push(digit_char(n % 10))
    }
}

fn exec_digit(d: usize) -> (c: char)
    requires
        d < 10,
    ensures
        c == digit_char(d as nat),
{
    if d == 0 { '0' }
    else if d == 1 { '1' }
    else if d == 2 { '2' }
    else if d == 3 { '3' }
    else if d == 4 { '4' }
    else if d == 5 { '5' }
    else if d == 6 { '6' }
    else if d == 7 { '7' }
    else if d == 8 { '8' }
    else { '9' }
}

/// The decimal notation of `n`.
pub fn decimal_string(n: usize) -> (r: String)
    ensures
        r@ == decimal(n as nat),
    decreases n,
{
    if n < 10 {
        let mut r = String::new();
        push_char(&mut r, exec_digit(n));
        r
    } else {
        let mut r = decimal_string(n / 10);
        push_char(&mut r, exec_digit(n % 10));
        r
    }
}

/// A copy of `s`, strings taken by their characters.
pub fn copy_strings(s: &Vec<String>) -> (r: Vec<String>)
    ensures
        r.deep_view() == s.deep_view(),
{
    let mut r: Vec<String> = Vec::new();
    let mut i: usize = 0;
    while i < s.len()
        invariant
            i <= s.len(),
            r.deep_view() == s.deep_view().take(i as int),
        decreases s.len() - i,
    {
        let ghost prev = r.deep_view();
        let item = s[i].clone();
        assert(item@ == s.deep_view()[i as int]);
        r.push(item);
        assert(r.deep_view() =~= prev.push(item@));
        assert(r.deep_view() =~= s.deep_view().take(i + 1));
        i = i + 1;
    }
    r
}

/// Whether `s` holds a string equal to `x`.
pub fn strings_contain(s: &Vec<String>, x: &String) -> (r: bool)
    ensures
        r == s.deep_view().contains(x@),
{
    let mut i: usize = 0;
    while i < s.len()
        invariant
            i <= s.len(),
            forall|j: int| 0 <= j < i ==> s.deep_view()[j] != x@,
        decreases s.len() - i,
    {
        if s[i] == *x {
            assert(s.deep_view()[i as int] == x@);
            return true;
        }
        i = i + 1;
    }
    false
}

} // verus!
