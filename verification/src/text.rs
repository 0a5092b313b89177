//! Character-level text model shared by the validators: Unicode whitespace and
//! control classes, trimming, line splitting, UTF-8 widths and conversions
//! between `str`, `String` and character vectors.
use vstd::prelude::*;

verus! {

/// Unicode `White_Space` property, the class that `char::is_whitespace` tests.
pub open spec fn is_ws(c: char) -> bool {
    let n = c as u32;
    (0x09 <= n <= 0x0D) || n == 0x20 || n == 0x85 || n == 0xA0 || n == 0x1680 || (0x2000 <= n
        <= 0x200A) || n == 0x2028 || n == 0x2029 || n == 0x202F || n == 0x205F || n == 0x3000
}

/// Unicode general category `Cc`, the class that `char::is_control` tests.
pub open spec fn is_ctrl(c: char) -> bool {
    let n = c as u32;
    n <= 0x1F || (0x7F <= n <= 0x9F)
}

pub open spec fn is_ascii_digit(c: char) -> bool {
    '0' <= c <= '9'
}

pub open spec fn is_ascii_alnum(c: char) -> bool {
    ('0' <= c <= '9') || ('a' <= c <= 'z') || ('A' <= c <= 'Z')
}

pub open spec fn is_ascii_hex(c: char) -> bool {
    ('0' <= c <= '9') || ('a' <= c <= 'f') || ('A' <= c <= 'F')
}

/// ASCII upper-casing of one character; every other character is unchanged.
pub open spec fn ascii_upper(c: char) -> char {
    if 'a' <= c <= 'z' {
        ((c as u32) - 32) as char
    } else {
        c
    }
}

pub open spec fn upper_seq(s: Seq<char>) -> Seq<char> {
    s.map_values(|c: char| ascii_upper(c))
}

/// Number of bytes that UTF-8 uses for one character.
pub open spec fn utf8_width(c: char) -> nat {
    let n = c as u32;
    if n < 0x80 {
        1
    } else if n < 0x800 {
        2
    } else if n < 0x10000 {
        3
    } else {
        4
    }
}

/// UTF-8 byte length of a character sequence.
pub open spec fn byte_len(s: Seq<char>) -> nat
    decreases s.len(),
{
    if s.len() == 0 {
        0
    } else {
        byte_len(s.drop_last()) + utf8_width(s.last())
    }
}

/// Character classes that the validators test and trim by.
#[derive(PartialEq, Eq, Structural, Clone, Copy)]
pub enum CharClass {
    Whitespace,
    Control,
    /// Quote and emphasis marks that surround generated titles.
    TitleMark,
    /// ASCII letters, digits, `-` and `.`.
    UserIdChar,
    /// ASCII letters, digits, `-`, `_`, `.` and `:`.
    ModelIdChar,
    HexDigit,
    /// The letter `v` that may precede a version number.
    VersionMark,
}

pub open spec fn in_class(c: char, k: CharClass) -> bool {
    match k {
        CharClass::Whitespace => is_ws(c),
        CharClass::Control => is_ctrl(c),
        CharClass::TitleMark => c == '"' || c == '\'' || c == '`' || c == '#' || c == '*',
        CharClass::UserIdChar => is_ascii_alnum(c) || c == '-' || c == '.',
        CharClass::ModelIdChar => is_ascii_alnum(c) || c == '-' || c == '_' || c == '.' || c
            == ':',
        CharClass::HexDigit => is_ascii_hex(c),
        CharClass::VersionMark => c == 'v',
    }
}

/// Every character of `s` is in class `k`.
pub open spec fn all_in(s: Seq<char>, k: CharClass) -> bool {
    forall|i: int| 0 <= i < s.len() ==> in_class(#[trigger] s[i], k)
}

/// Some character of `s` is in class `k`.
pub open spec fn any_in(s: Seq<char>, k: CharClass) -> bool {
    exists|i: int| 0 <= i < s.len() && in_class(#[trigger] s[i], k)
}

/// `s` with its leading characters of class `k` removed.
pub open spec fn trim_start_in(s: Seq<char>, k: CharClass) -> Seq<char>
    decreases s.len(),
{
    if s.len() > 0 && in_class(s[0], k) {
        trim_start_in(s.drop_first(), k)
    } else {
        s
    }
}

/// `s` with its trailing characters of class `k` removed.
pub open spec fn trim_end_in(s: Seq<char>, k: CharClass) -> Seq<char>
    decreases s.len(),
{
    if s.len() > 0 && in_class(s.last(), k) {
        trim_end_in(s.drop_last(), k)
    } else {
        s
    }
}

/// `s` with characters of class `k` removed at both ends (`str::trim_matches`).
pub open spec fn trim_in(s: Seq<char>, k: CharClass) -> Seq<char> {
    trim_end_in(trim_start_in(s, k), k)
}

pub open spec fn trim_start(s: Seq<char>) -> Seq<char> {
    trim_start_in(s, CharClass::Whitespace)
}

pub open spec fn trim_end(s: Seq<char>) -> Seq<char> {
    trim_end_in(s, CharClass::Whitespace)
}

/// `s` with whitespace removed at both ends, as `str::trim` does.
pub open spec fn trim(s: Seq<char>) -> Seq<char> {
    trim_in(s, CharClass::Whitespace)
}

/// Pieces of `s` between occurrences of `sep`, as `str::split` yields them;
/// there is always at least one.
pub open spec fn split_on(s: Seq<char>, sep: char) -> Seq<Seq<char>>
    decreases s.len(),
{
    if s.len() == 0 {
        seq![Seq::<char>::empty()]
    } else {
        let p = split_on(s.drop_last(), sep);
        if s.last() == sep {
            p.push(Seq::<char>::empty())
        } else {
            p.update(p.len() - 1, p.last().push(s.last()))
        }
    }
}

/// A line that ended with a line feed loses one carriage return before it.
pub open spec fn strip_cr(s: Seq<char>) -> Seq<char> {
    if s.len() > 0 && s.last() == '\r' {
        s.drop_last()
    } else {
        s
    }
}

/// The lines of `s` as `str::lines` yields them: split at `\n`, a `\r` before
/// each `\n` removed, and no empty line after a final `\n`.
pub open spec fn lines(s: Seq<char>) -> Seq<Seq<char>> {
    let p = split_on(s, '\n');
    if s.len() == 0 {
        Seq::empty()
    } else if s.last() == '\n' {
        p.drop_last().map_values(|l: Seq<char>| strip_cr(l))
    } else {
        p.drop_last().map_values(|l: Seq<char>| strip_cr(l)).push(p.last())
    }
}

/// `pat` occurs in `s` at position `i`.
pub open spec fn occurs_at(s: Seq<char>, pat: Seq<char>, i: int) -> bool {
    0 <= i && i + pat.len() <= s.len() && s.subrange(i, i + pat.len()) == pat
}

/// `pat` occurs somewhere in `s`, as `str::contains` tests.
pub open spec fn contains_seq(s: Seq<char>, pat: Seq<char>) -> bool {
    exists|i: int| occurs_at(s, pat, i)
}

pub proof fn lemma_split_on_nonempty(s: Seq<char>, sep: char)
    ensures
        split_on(s, sep).len() >= 1,
    decreases s.len(),
{
    if s.len() > 0 {
        lemma_split_on_nonempty(s.drop_last(), sep);
    }
}

pub proof fn lemma_byte_len_push(s: Seq<char>, c: char)
    ensures
        byte_len(s.push(c)) == byte_len(s) + utf8_width(c),
{
    assert(s.push(c).drop_last() =~= s);
}

pub proof fn lemma_byte_len_ge_len(s: Seq<char>)
    ensures
        byte_len(s) >= s.len(),
    decreases s.len(),
{
    if s.len() > 0 {
        lemma_byte_len_ge_len(s.drop_last());
    }
}

/// Appends one character; `String::push`.
#[verifier::external_body]
pub(crate) fn push_char(s: &mut String, c: char)
    ensures
        final(s)@ == old(s)@.push(c),
{
    s.push(c);
}

pub fn is_whitespace(c: char) -> (r: bool)
    ensures
        r == is_ws(c),
{
    let n = c as u32;
    (0x09 <= n && n <= 0x0D) || n == 0x20 || n == 0x85 || n == 0xA0 || n == 0x1680 || (0x2000 <= n
        && n <= 0x200A) || n == 0x2028 || n == 0x2029 || n == 0x202F || n == 0x205F || n == 0x3000
}

pub fn is_control(c: char) -> (r: bool)
    ensures
        r == is_ctrl(c),
{
    let n = c as u32;
    n <= 0x1F || (0x7F <= n && n <= 0x9F)
}

pub fn char_in_class(c: char, k: CharClass) -> (r: bool)
    ensures
        r == in_class(c, k),
{
    match k {
        CharClass::Whitespace => is_whitespace(c),
        CharClass::Control => is_control(c),
        CharClass::TitleMark => c == '"' || c == '\'' || c == '`' || c == '#' || c == '*',
        CharClass::UserIdChar => is_alnum(c) || c == '-' || c == '.',
        CharClass::ModelIdChar => is_alnum(c) || c == '-' || c == '_' || c == '.' || c == ':',
        CharClass::HexDigit => is_hex(c),
        CharClass::VersionMark => c == 'v',
    }
}

/// Whether every character of `s` is in class `k`.
pub fn all_in_class(s: &[char], k: CharClass) -> (r: bool)
    ensures
        r == all_in(s@, k),
{
    let mut i: usize = 0;
    while i < s.len()
        invariant
            i <= s.len(),
            forall|j: int| 0 <= j < i ==> in_class(#[trigger] s@[j], k),
        decreases s.len() - i,
    {
        if !char_in_class(s[i], k) {
            return false;
        }
        i += 1;
    }
    true
}

/// Whether some character of `s` is in class `k`.
pub fn any_in_class(s: &[char], k: CharClass) -> (r: bool)
    ensures
        r == any_in(s@, k),
{
    let mut i: usize = 0;
    while i < s.len()
        invariant
            i <= s.len(),
            forall|j: int| 0 <= j < i ==> !in_class(#[trigger] s@[j], k),
        decreases s.len() - i,
    {
        if char_in_class(s[i], k) {
            return true;
        }
        i += 1;
    }
    false
}

pub fn is_alnum(c: char) -> (r: bool)
    ensures
        r == is_ascii_alnum(c),
{
    ('0' <= c && c <= '9') || ('a' <= c && c <= 'z') || ('A' <= c && c <= 'Z')
}

pub fn is_hex(c: char) -> (r: bool)
    ensures
        r == is_ascii_hex(c),
{
    ('0' <= c && c <= '9') || ('a' <= c && c <= 'f') || ('A' <= c && c <= 'F')
}

pub fn to_upper(c: char) -> (r: char)
    ensures
        r == ascii_upper(c),
{
    if 'a' <= c && c <= 'z' {
        let b = (c as u8) - 32;
        b as char
    } else {
        c
    }
}

pub fn width_of(c: char) -> (w: usize)
    ensures
        w == utf8_width(c),
{
    let n = c as u32;
    if n < 0x80 {
        1
    } else if n < 0x800 {
        2
    } else if n < 0x10000 {
        3
    } else {
        4
    }
}

/// The characters of a string slice.
pub fn chars_of(s: &str) -> (out: Vec<char>)
    ensures
        out@ == s@,
{
    let mut out: Vec<char> = Vec::new();
    for c in it: s.chars()
        invariant
            out@ == it.seq().take(it.index() as int),
            it.seq() == s@,
    {
        out.push(c);
    }
    out
}

/// A string holding exactly the given characters.
pub fn string_of(v: &[char]) -> (s: String)
    ensures
        s@ == v@,
{
    let mut s = String::new();
    let mut i: usize = 0;
    while i < v.len()
        invariant
            i <= v.len(),
            s@ == v@.take(i as int),
        decreases v.len() - i,
    {
        push_char(&mut s, v[i]);
        i += 1;
        assert(s@ =~= v@.take(i as int));
    }
    assert(v@.take(v.len() as int) =~= v@);
    s
}

/// A string holding `v[start..end]`.
pub fn string_of_range(v: &[char], start: usize, end: usize) -> (s: String)
    requires
        start <= end <= v.len(),
    ensures
        s@ == v@.subrange(start as int, end as int),
{
    let mut s = String::new();
    let mut i: usize = start;
    while i < end
        invariant
            start <= i <= end <= v.len(),
            s@ == v@.subrange(start as int, i as int),
        decreases end - i,
    {
        push_char(&mut s, v[i]);
        i += 1;
        assert(s@ =~= v@.subrange(start as int, i as int));
    }
    s
}

/// Whether two character vectors are equal.
pub fn seq_equals(a: &[char], b: &[char]) -> (r: bool)
    ensures
        r == (a@ == b@),
{
    if a.len() != b.len() {
        return false;
    }
    let mut i: usize = 0;
    while i < a.len()
        invariant
            a.len() == b.len(),
            i <= a.len(),
            forall|j: int| 0 <= j < i ==> a@[j] == b@[j],
        decreases a.len() - i,
    {
        if a[i] != b[i] {
            return false;
        }
        i += 1;
    }
    assert(a@ =~= b@);
    true
}

/// Whether two string slices hold the same characters.
pub fn str_equals(a: &str, b: &str) -> (r: bool)
    ensures
        r == (a@ == b@),
{
    let x = chars_of(a);
    let y = chars_of(b);
    seq_equals(x.as_slice(), y.as_slice())
}

/// Whether `pat` occurs in `s` at position `i`.
pub fn occurs_at_exec(s: &[char], pat: &[char], i: usize) -> (r: bool)
    ensures
        r == occurs_at(s@, pat@, i as int),
{
    if i > s.len() || pat.len() > s.len() - i {
        return false;
    }
    let mut j: usize = 0;
    while j < pat.len()
        invariant
            i + pat.len() <= s.len(),
            j <= pat.len(),
            forall|k: int| 0 <= k < j ==> s@[i + k] == pat@[k],
        decreases pat.len() - j,
    {
        if s[i + j] != pat[j] {
            assert(s@.subrange(i as int, i + pat.len())[j as int] != pat@[j as int]);
            return false;
        }
        j += 1;
    }
    assert(s@.subrange(i as int, i + pat.len()) =~= pat@);
    true
}

/// Whether `pat` occurs anywhere in `s`.
pub fn contains_exec(s: &[char], pat: &[char]) -> (r: bool)
    ensures
        r == contains_seq(s@, pat@),
{
    let mut i: usize = 0;
    loop
        invariant
            i <= s.len(),
            forall|k: int| 0 <= k < i ==> !occurs_at(s@, pat@, k),
        ensures
            forall|k: int| 0 <= k <= s.len() ==> !occurs_at(s@, pat@, k),
        decreases s.len() - i,
    {
        if occurs_at_exec(s, pat, i) {
            return true;
        }
        if i == s.len() {
            break;
        }
        i += 1;
    }
    assert forall|k: int| !occurs_at(s@, pat@, k) by {
        if 0 <= k && k <= s.len() {
        }
    }
    false
}

/// The character sequences held by a vector of character vectors.
pub open spec fn seq_views(v: Seq<Vec<char>>) -> Seq<Seq<char>> {
    v.map_values(|l: Vec<char>| l@)
}

/// Index of the first character of `s` outside class `k`, or its length.
pub fn trim_start_index(s: &[char], k: CharClass) -> (a: usize)
    ensures
        a <= s.len(),
        s@.skip(a as int) == trim_start_in(s@, k),
{
    let mut a: usize = 0;
    assert(s@.skip(0) =~= s@);
    while a < s.len() && char_in_class(s[a], k)
        invariant
            a <= s.len(),
            trim_start_in(s@.skip(a as int), k) == trim_start_in(s@, k),
        decreases s.len() - a,
    {
        assert(s@.skip(a as int).drop_first() =~= s@.skip(a + 1));
        a += 1;
    }
    a
}

/// Bounds `(a, b)` such that `s[a..b]` is `s` with class `k` trimmed at both ends.
pub fn trim_bounds(s: &[char], k: CharClass) -> (r: (usize, usize))
    ensures
        r.0 <= r.1 <= s.len(),
        s@.subrange(r.0 as int, r.1 as int) == trim_in(s@, k),
{
    let a = trim_start_index(s, k);
    let mut b: usize = s.len();
    let ghost t = s@.skip(a as int);
    assert(t.take(t.len() as int) =~= t);
    while b > a && char_in_class(s[b - 1], k)
        invariant
            a <= b <= s.len(),
            t == s@.skip(a as int),
            trim_end_in(t.take(b - a), k) == trim_end_in(t, k),
        decreases b,
    {
        assert(t.take(b - a).drop_last() =~= t.take(b - 1 - a));
        b -= 1;
    }
    assert(t.take(b - a) =~= s@.subrange(a as int, b as int));
    (a, b)
}

/// `s` with characters of class `k` trimmed at both ends.
pub fn trim_chars(s: &[char], k: CharClass) -> (out: Vec<char>)
    ensures
        out@ == trim_in(s@, k),
{
    let (a, b) = trim_bounds(s, k);
    copy_range(s, a, b)
}

/// A copy of `s[a..b]`.
pub fn copy_range(s: &[char], a: usize, b: usize) -> (out: Vec<char>)
    requires
        a <= b <= s.len(),
    ensures
        out@ == s@.subrange(a as int, b as int),
{
    let mut out: Vec<char> = Vec::new();
    let mut i = a;
    while i < b
        invariant
            a <= i <= b <= s.len(),
            out@ == s@.subrange(a as int, i as int),
        decreases b - i,
    {
        out.push(s[i]);
        i += 1;
        assert(out@ =~= s@.subrange(a as int, i as int));
    }
    out
}

/// The characters of `s` with whitespace trimmed at both ends.
pub fn trimmed_chars(s: &str) -> (out: Vec<char>)
    ensures
        out@ == trim(s@),
{
    let v = chars_of(s);
    trim_chars(v.as_slice(), CharClass::Whitespace)
}

/// The pieces of `s` between occurrences of `sep`.
pub fn split_by(s: &[char], sep: char) -> (out: Vec<Vec<char>>)
    ensures
        seq_views(out@) == split_on(s@, sep),
{
    let mut done: Vec<Vec<char>> = Vec::new();
    let mut cur: Vec<char> = Vec::new();
    let mut i: usize = 0;
    assert(s@.take(0) =~= Seq::<char>::empty());
    while i < s.len()
        invariant
            i <= s.len(),
            split_on(s@.take(i as int), sep) == seq_views(done@).push(cur@),
        decreases s.len() - i,
    {
        let ghost old_done = seq_views(done@);
        let ghost old_cur = cur@;
        assert(s@.take(i + 1).drop_last() =~= s@.take(i as int));
        if s[i] == sep {
            let finished = cur;
            done.push(finished);
            cur = Vec::new();
            assert(seq_views(done@) =~= old_done.push(old_cur));
        } else {
            cur.push(s[i]);
            assert(seq_views(done@) =~= old_done);
        }
        i += 1;
        assert(split_on(s@.take(i as int), sep) =~= seq_views(done@).push(cur@));
    }
    assert(s@.take(s.len() as int) =~= s@);
    let ghost before = seq_views(done@);
    let last = cur;
    done.push(last);
    assert(seq_views(done@) =~= before.push(last@));
    done
}

/// The lines of `s`, as `str::lines` splits them.
pub fn split_lines(s: &[char]) -> (out: Vec<Vec<char>>)
    ensures
        seq_views(out@) == lines(s@),
{
    let mut done = split_by(s, '\n');
    proof {
        lemma_split_on_nonempty(s@, '\n');
    }
    let cur = done.pop().unwrap();
    let ghost pieces = split_on(s@, '\n');
    let ghost dv = seq_views(done@);
    assert(pieces.drop_last() =~= dv);
    let mut out: Vec<Vec<char>> = Vec::new();
    let mut k: usize = 0;
    while k < done.len()
        invariant
            k <= done.len(),
            dv == seq_views(done@),
            seq_views(out@) =~= dv.take(k as int).map_values(|l: Seq<char>| strip_cr(l)),
        decreases done.len() - k,
    {
        let line = &done[k];
        let mut copy: Vec<char> = Vec::new();
        let mut n = line.len();
        if n > 0 && line[n - 1] == '\r' {
            n = n - 1;
        }
        let mut j: usize = 0;
        while j < n
            invariant
                j <= n <= line.len(),
                copy@ == line@.take(j as int),
            decreases n - j,
        {
            copy.push(line[j]);
            j += 1;
            assert(copy@ =~= line@.take(j as int));
        }
        assert(copy@ =~= strip_cr(dv[k as int]));
        let ghost before = seq_views(out@);
        let ghost cv = copy@;
        out.push(copy);
        assert(seq_views(out@) =~= before.push(cv));
        assert(dv.take(k + 1) =~= dv.take(k as int).push(dv[k as int]));
        k += 1;
        assert(seq_views(out@) =~= dv.take(k as int).map_values(|l: Seq<char>| strip_cr(l)));
    }
    assert(dv.take(done.len() as int) =~= dv);
    if s.len() > 0 && s[s.len() - 1] != '\n' {
        let last = cur;
        out.push(last);
    }
    proof {
        if s.len() == 0 {
            assert(seq_views(out@) =~= lines(s@));
        } else if s@.last() == '\n' {
            assert(seq_views(out@) =~= lines(s@));
        } else {
            assert(seq_views(out@) =~= lines(s@));
        }
    }
    out
}

/// Value of a sequence of decimal digits.
pub open spec fn digits_value(s: Seq<char>) -> nat
    decreases s.len(),
{
    if s.len() == 0 {
        0
    } else {
        digits_value(s.drop_last()) * 10 + ((s.last() as u32) - ('0' as u32)) as nat
    }
}

/// What `str::parse::<u64>` yields: an optional `+`, then at least one
/// decimal digit, and a value that fits.
pub open spec fn parse_u64_spec(s: Seq<char>) -> Option<u64> {
    let d = unsigned_part(s);
    if d.len() > 0 && all_digits(d) && digits_value(d) <= u64::MAX {
        Some(digits_value(d) as u64)
    } else {
        None
    }
}

/// `s` without one leading `+`.
pub open spec fn unsigned_part(s: Seq<char>) -> Seq<char> {
    if s.len() > 0 && s[0] == '+' {
        s.drop_first()
    } else {
        s
    }
}

pub open spec fn all_digits(d: Seq<char>) -> bool {
    forall|i: int| 0 <= i < d.len() ==> is_ascii_digit(#[trigger] d[i])
}

pub proof fn lemma_digits_value_prefix(s: Seq<char>, i: int)
    requires
        0 <= i <= s.len(),
        forall|j: int| 0 <= j < s.len() ==> is_ascii_digit(#[trigger] s[j]),
    ensures
        digits_value(s.take(i)) <= digits_value(s),
    decreases s.len() - i,
{
    if i < s.len() {
        lemma_digits_value_prefix(s, i + 1);
        assert(s.take(i + 1).drop_last() =~= s.take(i));
    } else {
        assert(s.take(i) =~= s);
    }
}

/// Parses a decimal `u64` exactly as `str::parse::<u64>` accepts it.
pub fn parse_u64(s: &[char]) -> (r: Option<u64>)
    ensures
        r == parse_u64_spec(s@),
{
    let start: usize = if s.len() > 0 && s[0] == '+' {
        1
    } else {
        0
    };
    let ghost d = s@.skip(start as int);
    assert(d =~= unsigned_part(s@));
    if start >= s.len() {
        return None;
    }
    let mut value: u64 = 0;
    let mut i: usize = start;
    assert(d.take(0) =~= Seq::<char>::empty());
    while i < s.len()
        invariant
            start <= i <= s.len(),
            d == s@.skip(start as int),
            d == unsigned_part(s@),
            value as nat == digits_value(d.take(i - start)),
            forall|j: int| 0 <= j < i - start ==> is_ascii_digit(#[trigger] d[j]),
        decreases s.len() - i,
    {
        let c = s[i];
        if !('0' <= c && c <= '9') {
            assert(d[i - start] == c);
            assert(!is_ascii_digit(d[i - start]));
            assert(!all_digits(d));
            return None;
        }
        let digit = (c as u32) - ('0' as u32);
        assert(d.take(i + 1 - start).drop_last() =~= d.take(i - start));
        assert(d.take(i + 1 - start).last() == c);
        assert(digits_value(d.take(i + 1 - start)) == value * 10 + digit);
        let next = match value.checked_mul(10) {
            Some(t) => t.checked_add(digit as u64),
            None => None,
        };
        match next {
            Some(n) => {
                value = n;
            },
            None => {
                proof {
                    if all_digits(d) {
                        lemma_digits_value_prefix(d, i + 1 - start);
                    }
                }
                return None;
            },
        }
        i += 1;
    }
    assert(d.take(i - start) =~= d);
    Some(value)
}

/// Decimal digits of a number.
pub open spec fn decimal(n: nat) -> Seq<char>
    decreases n,
{
    if n < 10 {
        seq![digit_char(n)]
    } else {
        decimal(n / 10).push(digit_char(n % 10))
    }
}

pub open spec fn digit_char(d: nat) -> char {
    if d == 0 {
        '0'
    } else if d == 1 {
        '1'
    } else if d == 2 {
        '2'
    } else if d == 3 {
        '3'
    } else if d == 4 {
        '4'
    } else if d == 5 {
        '5'
    } else if d == 6 {
        '6'
    } else if d == 7 {
        '7'
    } else if d == 8 {
        '8'
    } else {
        '9'
    }
}

fn digit(d: usize) -> (c: char)
    requires
        d < 10,
    ensures
        c == digit_char(d as nat),
{
    if d == 0 {
        '0'
    } else if d == 1 {
        '1'
    } else if d == 2 {
        '2'
    } else if d == 3 {
        '3'
    } else if d == 4 {
        '4'
    } else if d == 5 {
        '5'
    } else if d == 6 {
        '6'
    } else if d == 7 {
        '7'
    } else if d == 8 {
        '8'
    } else {
        '9'
    }
}

/// The decimal digits of `n`.
pub fn decimal_chars(n: usize) -> (out: Vec<char>)
    ensures
        out@ == decimal(n as nat),
    decreases n,
{
    if n < 10 {
        let mut v = Vec::new();
        v.push(digit(n));
        v
    } else {
        let mut v = decimal_chars(n / 10);
        v.push(digit(n % 10));
        v
    }
}

/// The decimal digits of a `u64`.
pub fn decimal_u64(n: u64) -> (out: Vec<char>)
    ensures
        out@ == decimal(n as nat),
    decreases n,
{
    if n < 10 {
        let mut v = Vec::new();
        v.push(digit(n as usize));
        v
    } else {
        let mut v = decimal_u64(n / 10);
        v.push(digit((n % 10) as usize));
        v
    }
}

/// An integer in decimal, with a leading `-` when it is negative.
pub open spec fn signed_decimal(n: int) -> Seq<char> {
    if n < 0 {
        seq!['-'] + decimal((-n) as nat)
    } else {
        decimal(n as nat)
    }
}

/// The decimal text of an `i64`, as `Display` writes it.
pub fn decimal_i64(n: i64) -> (out: Vec<char>)
    ensures
        out@ == signed_decimal(n as int),
{
    if n < 0 {
        let m: u64 = (0i128 - n as i128) as u64;
        let d = decimal_u64(m);
        let mut v = Vec::new();
        v.push('-');
        let mut i: usize = 0;
        while i < d.len()
            invariant
                i <= d.len(),
                v@ == seq!['-'] + d@.take(i as int),
            decreases d.len() - i,
        {
            v.push(d[i]);
            assert(d@.take(i + 1) =~= d@.take(i as int).push(d@[i as int]));
            i += 1;
        }
        assert(d@.take(d.len() as int) =~= d@);
        v
    } else {
        decimal_u64(n as u64)
    }
}

/// Appends the characters of `s` to `v`.
pub fn extend_str(v: &mut Vec<char>, s: &str)
    ensures
        final(v)@ == old(v)@ + s@,
{
    let c = chars_of(s);
    extend_chars(v, c.as_slice());
}

/// Appends `c` to `v`.
pub fn extend_chars(v: &mut Vec<char>, c: &[char])
    ensures
        final(v)@ == old(v)@ + c@,
{
    let ghost start = v@;
    let mut i: usize = 0;
    while i < c.len()
        invariant
            i <= c.len(),
            v@ == start + c@.take(i as int),
        decreases c.len() - i,
    {
        v.push(c[i]);
        i += 1;
        assert(v@ =~= start + c@.take(i as int));
    }
    assert(c@.take(c.len() as int) =~= c@);
}

} // verus!
