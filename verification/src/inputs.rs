//! Validation of the values that browsers, API clients and Workers send:
//! user IDs, labels and titles, model identifiers, reasoning efforts, prompt
//! text, API keys, device secrets, pairing codes and Worker versions.
use vstd::prelude::*;
use crate::clock::now;
use crate::error::{ApiError, ordinary};
use crate::text::{
    all_in, all_in_class, any_in, any_in_class, byte_len, chars_of, copy_range, decimal,
    decimal_chars, extend_chars, extend_str, lemma_byte_len_ge_len, occurs_at_exec, parse_u64,
    parse_u64_spec, lines, seq_equals, seq_views, split_lines, trim_chars, trim_in, split_by, split_on, str_equals, string_of, string_of_range,
    trim, trim_start_in, trim_start_index, trimmed_chars, upper_seq, width_of, CharClass,
    ascii_upper, in_class, trim_end_in,
};

verus! {

/// A trimmed user ID that may name a database file.
pub open spec fn valid_user_id(t: Seq<char>) -> bool {
    0 < t.len() <= 128 && all_in(t, CharClass::UserIdChar)
}

/// Checks a user ID and returns it trimmed: 1 to 128 ASCII letters, digits,
/// `-` or `.`, so that it can never escape the users directory.
pub fn user_id(value: &str) -> (r: Result<String, ApiError>)
    ensures
        r is Ok <==> valid_user_id(trim(value@)),
        r matches Ok(id) ==> id@ == trim(value@),
        r matches Err(e) ==> ordinary(e, 401, "invalid user id"@),
{
    let t = trimmed_chars(value);
    if t.len() == 0 || t.len() > 128 || !all_in_class(t.as_slice(), CharClass::UserIdChar) {
        return Err(ApiError::unauthorized("invalid user id".to_owned()));
    }
    Ok(string_of(t.as_slice()))
}

/// A trimmed label of 1 to `max` characters without control characters.
pub open spec fn valid_label(t: Seq<char>, max: nat) -> bool {
    0 < t.len() <= max && !any_in(t, CharClass::Control)
}

/// The message that a rejected label answers with.
pub open spec fn label_message(field: Seq<char>, max: nat) -> Seq<char> {
    field + " must contain 1-"@ + decimal(max) + " visible characters"@
}

/// Checks a human-readable label and returns it trimmed.
pub fn label(value: &str, field: &str, max: usize) -> (r: Result<String, ApiError>)
    ensures
        r is Ok <==> valid_label(trim(value@), max as nat),
        r matches Ok(l) ==> l@ == trim(value@),
        r matches Err(e) ==> ordinary(e, 400, label_message(field@, max as nat)),
{
    let t = trimmed_chars(value);
    if t.len() == 0 || t.len() > max || any_in_class(t.as_slice(), CharClass::Control) {
        let mut message = chars_of(field);
        extend_str(&mut message, " must contain 1-");
        let digits = decimal_chars(max);
        extend_chars(&mut message, digits.as_slice());
        extend_str(&mut message, " visible characters");
        return Err(ApiError::bad_request(string_of(message.as_slice())));
    }
    Ok(string_of(t.as_slice()))
}

/// The title of a new thread: the given one checked as a label of at most
/// 160 characters, or `Untitled thread` when none is given.
pub fn optional_title(value: Option<String>) -> (r: Result<String, ApiError>)
    ensures
        value is None ==> (r matches Ok(t) && t@ == "Untitled thread"@),
        value matches Some(v) ==> {
            &&& (r is Ok <==> valid_label(trim(v@), 160))
            &&& (r matches Ok(t) ==> t@ == trim(v@))
            &&& (r matches Err(e) ==> ordinary(e, 400, label_message("title"@, 160)))
        },
{
    match value {
        Some(v) => label(v.as_str(), "title", 160),
        None => Ok("Untitled thread".to_owned()),
    }
}

/// A trimmed model identifier: 1 to 128 ASCII letters, digits, `-`, `_`, `.`
/// or `:`.
pub open spec fn valid_model_id(t: Seq<char>) -> bool {
    0 < t.len() <= 128 && all_in(t, CharClass::ModelIdChar)
}

/// Checks a model identifier and returns it trimmed.
pub fn model_id(value: String) -> (r: Result<String, ApiError>)
    ensures
        r is Ok <==> valid_model_id(trim(value@)),
        r matches Ok(m) ==> m@ == trim(value@),
        r matches Err(e) ==> ordinary(e, 400, "model must be a supported model identifier"@),
{
    let t = trimmed_chars(value.as_str());
    if t.len() == 0 || t.len() > 128 || !all_in_class(t.as_slice(), CharClass::ModelIdChar) {
        return Err(
            ApiError::bad_request("model must be a supported model identifier".to_owned()),
        );
    }
    Ok(string_of(t.as_slice()))
}

/// The reasoning efforts that a thread may request.
pub open spec fn valid_reasoning_effort(v: Seq<char>) -> bool {
    v == "none"@ || v == "low"@ || v == "medium"@ || v == "high"@ || v == "xhigh"@ || v
        == "max"@
}

/// Checks a reasoning effort; it is taken exactly as given.
pub fn reasoning_effort(value: String) -> (r: Result<String, ApiError>)
    ensures
        r is Ok <==> valid_reasoning_effort(value@),
        r matches Ok(v) ==> v@ == value@,
        r matches Err(e) ==> ordinary(e, 400, "invalid reasoning effort"@),
{
    let ok = str_equals(value.as_str(), "none") || str_equals(value.as_str(), "low")
        || str_equals(value.as_str(), "medium") || str_equals(value.as_str(), "high")
        || str_equals(value.as_str(), "xhigh") || str_equals(value.as_str(), "max");
    if !ok {
        return Err(ApiError::bad_request("invalid reasoning effort".to_owned()));
    }
    Ok(value)
}

/// Checks the text of a prompt and returns it trimmed: 1 to 100000 characters.
pub fn input_text(value: String) -> (r: Result<String, ApiError>)
    ensures
        r is Ok <==> 0 < trim(value@).len() <= 100000,
        r matches Ok(t) ==> t@ == trim(value@),
        r matches Err(e) ==> ordinary(e, 400, "input must contain 1-100000 characters"@),
{
    let t = trimmed_chars(value.as_str());
    if t.len() == 0 || t.len() > 100000 {
        return Err(ApiError::bad_request("input must contain 1-100000 characters".to_owned()));
    }
    Ok(string_of(t.as_slice()))
}

/// The name of an upstream: a label of at most 80 characters.
pub fn validate_name(value: &str) -> (r: Result<String, ApiError>)
    ensures
        r is Ok <==> valid_label(trim(value@), 80),
        r matches Ok(l) ==> l@ == trim(value@),
        r matches Err(e) ==> ordinary(e, 400, label_message("name"@, 80)),
{
    label(value, "name", 80)
}

/// UTF-8 byte length of a character vector.
pub fn byte_length(v: &[char]) -> (n: usize)
    requires
        v.len() <= usize::MAX / 4,
    ensures
        n == byte_len(v@),
{
    let mut n: usize = 0;
    let mut i: usize = 0;
    while i < v.len()
        invariant
            i <= v.len() <= usize::MAX / 4,
            n == byte_len(v@.take(i as int)),
            n <= 4 * i,
        decreases v.len() - i,
    {
        assert(v@.take(i + 1).drop_last() =~= v@.take(i as int));
        n = n + width_of(v[i]);
        i += 1;
    }
    assert(v@.take(v.len() as int) =~= v@);
    n
}

/// Checks the API key of an upstream and returns it trimmed: at most 4096
/// UTF-8 bytes and no control characters; an empty key is allowed.
pub fn validate_api_key(value: String) -> (r: Result<String, ApiError>)
    ensures
        r is Ok <==> byte_len(trim(value@)) <= 4096 && !any_in(trim(value@), CharClass::Control),
        r matches Ok(k) ==> k@ == trim(value@),
        r matches Err(e) ==> ordinary(
            e,
            400,
            "api_key must contain at most 4096 visible characters"@,
        ),
{
    let t = trimmed_chars(value.as_str());
    let too_long = if t.len() > 4096 {
        proof {
            lemma_byte_len_ge_len(t@);
        }
        true
    } else {
        byte_length(t.as_slice()) > 4096
    };
    if too_long || any_in_class(t.as_slice(), CharClass::Control) {
        return Err(
            ApiError::bad_request(
                "api_key must contain at most 4096 visible characters".to_owned(),
            ),
        );
    }
    Ok(string_of(t.as_slice()))
}

/// A 256-bit value written as 64 hexadecimal digits.
pub open spec fn valid_hex_secret(v: Seq<char>) -> bool {
    v.len() == 64 && all_in(v, CharClass::HexDigit)
}

/// Checks that a device secret or token hash is 64 hexadecimal digits.
pub fn hex_secret(value: &str) -> (r: Result<(), ApiError>)
    ensures
        r is Ok <==> valid_hex_secret(value@),
        r matches Err(e) ==> ordinary(e, 400, "expected a 256-bit hexadecimal value"@),
{
    let v = chars_of(value);
    if v.len() != 64 || !all_in_class(v.as_slice(), CharClass::HexDigit) {
        return Err(ApiError::bad_request("expected a 256-bit hexadecimal value".to_owned()));
    }
    Ok(())
}

/// `s` without the `-` and space characters that users type into codes.
pub open spec fn without_separators(s: Seq<char>) -> Seq<char>
    decreases s.len(),
{
    if s.len() == 0 {
        s
    } else if s.last() == '-' || s.last() == ' ' {
        without_separators(s.drop_last())
    } else {
        without_separators(s.drop_last()).push(s.last())
    }
}

/// The canonical form `XXXX-XXXX-XXXX` of twelve code characters.
pub open spec fn grouped_code(u: Seq<char>) -> Seq<char> {
    u.subrange(0, 4) + seq!['-'] + u.subrange(4, 8) + seq!['-'] + u.subrange(8, 12)
}

/// Removes the separators from a code typed by a user.
pub fn remove_separators(s: &[char]) -> (out: Vec<char>)
    ensures
        out@ == without_separators(s@),
{
    let mut out: Vec<char> = Vec::new();
    let mut i: usize = 0;
    assert(s@.take(0) =~= Seq::<char>::empty());
    while i < s.len()
        invariant
            i <= s.len(),
            out@ == without_separators(s@.take(i as int)),
        decreases s.len() - i,
    {
        proof {
            assert(s@.take(i + 1).drop_last() =~= s@.take(i as int));
        }
        if s[i] != '-' && s[i] != ' ' {
            out.push(s[i]);
        }
        i += 1;
    }
    assert(s@.take(s.len() as int) =~= s@);
    out
}

/// Finishes a pairing code from its upper-cased, separator-free characters:
/// exactly twelve hexadecimal digits, answered in groups of four.
pub fn pairing_code_from_upper(upper: &[char]) -> (r: Result<String, ApiError>)
    ensures
        r is Ok <==> valid_pairing_digits(upper@),
        r matches Ok(c) ==> c@ == grouped_code(upper@),
        r matches Err(e) ==> ordinary(
            e,
            400,
            "Enter the 12-character code shown on your device"@,
        ),
{
    if upper.len() != 12 || !all_in_class(upper, CharClass::HexDigit) {
        return Err(
            ApiError::bad_request("Enter the 12-character code shown on your device".to_owned()),
        );
    }
    let mut out: Vec<char> = copy_range(upper, 0, 4);
    out.push('-');
    let middle = copy_range(upper, 4, 8);
    extend_chars(&mut out, middle.as_slice());
    out.push('-');
    let tail = copy_range(upper, 8, 12);
    extend_chars(&mut out, tail.as_slice());
    assert(out@ =~= grouped_code(upper@));
    Ok(string_of(out.as_slice()))
}

pub open spec fn valid_pairing_digits(u: Seq<char>) -> bool {
    u.len() == 12 && all_in(u, CharClass::HexDigit)
}

/// What `str::to_uppercase` returns for a character sequence.
pub uninterp spec fn unicode_uppercase(s: Seq<char>) -> Seq<char>;

/// `str::to_uppercase`: full Unicode upper-casing (one character may become
/// several, as a ligature does). The contract names the result; of the
/// Unicode case tables it states only that ASCII text is upper-cased as
/// `str::to_ascii_uppercase` does (`a`..`z` to `A`..`Z`, the rest unchanged),
/// and that the result, being upper-cased, holds no letter `a`..`z` (every
/// one of them has an uppercase mapping, and no mapping yields one).
#[verifier::external_body]
fn to_uppercase(s: &str) -> (u: String)
    ensures
        u@ == unicode_uppercase(s@),
        (forall|i: int| 0 <= i < s@.len() ==> (#[trigger] s@[i] as u32) < 0x80) ==> u@
            == upper_seq(s@),
        forall|i: int| 0 <= i < u@.len() ==> !('a' <= #[trigger] u@[i] <= 'z'),
{
    s.to_uppercase()
}

/// Text whose characters are all ASCII.
pub open spec fn ascii_text(s: Seq<char>) -> bool {
    forall|i: int| 0 <= i < s.len() ==> (#[trigger] s[i] as u32) < 0x80
}

/// What `str::to_uppercase` gives: ASCII text upper-cased letter by letter,
/// other text by the Unicode tables (named, not restated).
pub open spec fn uppercased(s: Seq<char>) -> Seq<char> {
    if ascii_text(s) {
        upper_seq(s)
    } else {
        unicode_uppercase(s)
    }
}

/// The normalized pairing code of what a user typed, if it is one.
pub open spec fn code_spec(value: Seq<char>) -> Option<Seq<char>> {
    let u = uppercased(without_separators(trim(value)));
    if valid_pairing_digits(u) {
        Some(grouped_code(u))
    } else {
        None
    }
}

/// Normalizes the pairing code that a user typed: trimmed, separators
/// removed, upper-cased, then checked and grouped.
pub fn code(value: &str) -> (r: Result<String, ApiError>)
    ensures
        r is Ok <==> code_spec(value@) is Some,
        r matches Ok(c) ==> code_spec(value@) == Some(c@) && normalized_code(c@),
        r matches Err(e) ==> ordinary(e, 400, "Enter the 12-character code shown on your device"@),
{
    let t = trimmed_chars(value);
    let stripped = remove_separators(t.as_slice());
    let s = string_of(stripped.as_slice());
    let upper = to_uppercase(s.as_str());
    let u = chars_of(upper.as_str());
    assert(u@ == uppercased(without_separators(trim(value@))));
    proof {
        if valid_pairing_digits(u@) {
            lemma_grouped_normalized(u@);
        }
    }
    pairing_code_from_upper(u.as_slice())
}

/// Separators come out piece by piece.
proof fn lemma_without_separators_concat(a: Seq<char>, b: Seq<char>)
    ensures
        without_separators(a + b) == without_separators(a) + without_separators(b),
    decreases b.len(),
{
    if b.len() > 0 {
        lemma_without_separators_concat(a, b.drop_last());
        assert((a + b).drop_last() =~= a + b.drop_last());
        assert((a + b).last() == b.last());
        if b.last() == '-' || b.last() == ' ' {
        } else {
            assert(without_separators(a) + without_separators(b) =~= (without_separators(a)
                + without_separators(b.drop_last())).push(b.last()));
        }
    } else {
        assert(a + b =~= a);
        assert(without_separators(a) + without_separators(b) =~= without_separators(a));
    }
}

/// Text without separators keeps all of its characters.
pub(crate) proof fn lemma_no_separators(s: Seq<char>)
    requires
        forall|i: int| 0 <= i < s.len() ==> #[trigger] s[i] != '-' && s[i] != ' ',
    ensures
        without_separators(s) == s,
    decreases s.len(),
{
    if s.len() > 0 {
        lemma_no_separators(s.drop_last());
        assert(without_separators(s.drop_last()).push(s.last()) =~= s);
    }
}

/// An uppercase hexadecimal digit.
pub open spec fn upper_hex_digit(c: char) -> bool {
    ('0' <= c <= '9') || ('A' <= c <= 'F')
}

/// A normalized pairing code: `XXXX-XXXX-XXXX` in uppercase hexadecimal
/// digits.
pub open spec fn normalized_code(c: Seq<char>) -> bool {
    &&& c.len() == 14
    &&& forall|i: int|
        0 <= i < 14 ==> (if i == 4 || i == 9 {
            #[trigger] c[i] == '-'
        } else {
            upper_hex_digit(c[i])
        })
}

/// Twelve hexadecimal digits of which none is a lowercase letter group into a
/// normalized code.
proof fn lemma_grouped_normalized(u: Seq<char>)
    requires
        valid_pairing_digits(u),
        forall|i: int| 0 <= i < u.len() ==> !('a' <= #[trigger] u[i] <= 'z'),
    ensures
        normalized_code(grouped_code(u)),
{
    let c = grouped_code(u);
    assert forall|i: int| 0 <= i < u.len() implies upper_hex_digit(#[trigger] u[i]) by {
        assert(in_class(u[i], CharClass::HexDigit));
    }
    assert forall|i: int| 0 <= i < 14 implies (if i == 4 || i == 9 {
        #[trigger] c[i] == '-'
    } else {
        upper_hex_digit(c[i])
    }) by {
        if i < 4 {
            assert(c[i] == u[i]);
        } else if 4 < i < 9 {
            assert(c[i] == u[i - 1]);
        } else if i > 9 {
            assert(c[i] == u[i - 2]);
        }
    }
}

/// Normalizing a pairing code that is already normalized changes nothing.
pub proof fn lemma_code_idempotent(c: Seq<char>)
    requires
        normalized_code(c),
    ensures
        code_spec(c) == Some(c),
{
    let u0 = c.subrange(0, 4);
    let u1 = c.subrange(5, 9);
    let u2 = c.subrange(10, 14);
    let u = u0 + u1 + u2;
    assert forall|i: int| 0 <= i < 12 implies upper_hex_digit(#[trigger] u[i]) by {
        if i < 4 {
            assert(u[i] == c[i]);
        } else if i < 8 {
            assert(u[i] == c[i + 1]);
        } else {
            assert(u[i] == c[i + 2]);
        }
    }
    assert(c =~= u0 + seq!['-'] + u1 + seq!['-'] + u2);
    assert(grouped_code(u) =~= c) by {
        assert(u.subrange(0, 4) =~= u0);
        assert(u.subrange(4, 8) =~= u1);
        assert(u.subrange(8, 12) =~= u2);
    }
    assert(!in_class(c[0], CharClass::Whitespace));
    assert(trim_start_in(c, CharClass::Whitespace) == c);
    assert(!in_class(c.last(), CharClass::Whitespace));
    assert(trim_end_in(c, CharClass::Whitespace) == c);
    assert(trim(c) == c);
    assert forall|i: int| 0 <= i < u0.len() implies #[trigger] u0[i] != '-' && u0[i] != ' ' by {
        assert(upper_hex_digit(c[i]));
    }
    assert forall|i: int| 0 <= i < u1.len() implies #[trigger] u1[i] != '-' && u1[i] != ' ' by {
        assert(upper_hex_digit(c[i + 5]));
    }
    assert forall|i: int| 0 <= i < u2.len() implies #[trigger] u2[i] != '-' && u2[i] != ' ' by {
        assert(upper_hex_digit(c[i + 10]));
    }
    lemma_no_separators(u0);
    lemma_no_separators(u1);
    lemma_no_separators(u2);
    assert(without_separators(seq!['-']) =~= Seq::<char>::empty()) by {
        let d = seq!['-'];
        assert(d.len() == 1 && d.last() == '-');
        assert(d.drop_last() =~= Seq::<char>::empty());
        assert(without_separators(d) == without_separators(d.drop_last()));
        assert(without_separators(Seq::<char>::empty()) == Seq::<char>::empty());
    }
    lemma_without_separators_concat(u0, seq!['-']);
    lemma_without_separators_concat(u0 + seq!['-'], u1);
    lemma_without_separators_concat(u0 + seq!['-'] + u1, seq!['-']);
    lemma_without_separators_concat(u0 + seq!['-'] + u1 + seq!['-'], u2);
    assert(without_separators(c) =~= u);
    assert forall|i: int| 0 <= i < u.len() implies (#[trigger] u[i] as u32) < 0x80 by {
        assert(upper_hex_digit(u[i]));
    }
    assert forall|i: int| 0 <= i < u.len() implies #[trigger] upper_seq(u)[i] == u[i] by {
        assert(upper_hex_digit(u[i]));
    }
    assert(upper_seq(u) =~= u);
    assert(uppercased(u) == u);
    assert forall|i: int| 0 <= i < u.len() implies in_class(#[trigger] u[i], CharClass::HexDigit) by {
        assert(upper_hex_digit(u[i]));
    }
    assert(valid_pairing_digits(u));
}

/// Position of the first `c` in `s` at or after `from`.
pub open spec fn first_from(s: Seq<char>, c: char, from: int, k: int) -> bool {
    &&& from <= k < s.len()
    &&& s[k] == c
    &&& forall|m: int| from <= m < k ==> s[m] != c
}

/// `cyb_<user>_<secret>`: the user part ends at the first `_` after the
/// prefix, and the secret is the non-empty rest.
pub open spec fn api_key_parts(s: Seq<char>, user: Seq<char>, secret: Seq<char>) -> bool {
    &&& s.len() >= 4
    &&& s.take(4) == "cyb_"@
    &&& exists|k: int|
        first_from(s, '_', 4, k) && user == s.subrange(4, k) && secret == s.skip(k + 1)
            && secret.len() > 0
}

pub open spec fn api_key_well_formed(s: Seq<char>) -> bool {
    exists|user: Seq<char>, secret: Seq<char>| api_key_parts(s, user, secret)
}

/// Splits an external API key into its user ID and secret.
pub fn parse_api_key(value: &str) -> (r: Result<(String, String), ApiError>)
    ensures
        r is Ok <==> api_key_well_formed(value@),
        r matches Ok((u, s)) ==> api_key_parts(value@, u@, s@),
        r matches Err(e) ==> ordinary(e, 401, "invalid API key"@),
{
    let v = chars_of(value);
    proof {
        reveal_strlit("cyb_");
    }
    let prefix = chars_of("cyb_");
    if v.len() < 4 || !occurs_at_exec(v.as_slice(), prefix.as_slice(), 0) {
        proof {
            if api_key_well_formed(value@) {
                assert(v@.subrange(0, 4) == v@.take(4));
            }
        }
        return Err(ApiError::unauthorized("invalid API key".to_owned()));
    }
    assert(v@.subrange(0, 4) =~= v@.take(4));
    let mut k: usize = 4;
    while k < v.len() && v[k] != '_'
        invariant
            4 <= k <= v.len(),
            forall|m: int| 4 <= m < k ==> v@[m] != '_',
        decreases v.len() - k,
    {
        k += 1;
    }
    if k >= v.len() || k + 1 >= v.len() {
        proof {
            if api_key_well_formed(value@) {
                let (user, secret) = choose|user: Seq<char>, secret: Seq<char>|
                    api_key_parts(value@, user, secret);
                let j = choose|j: int|
                    first_from(v@, '_', 4, j) && user == v@.subrange(4, j) && secret == v@.skip(
                        j + 1,
                    ) && secret.len() > 0;
                if j < k {
                } else if j > k {
                    assert(v@[k as int] == '_');
                }
            }
        }
        return Err(ApiError::unauthorized("invalid API key".to_owned()));
    }
    let user = string_of_range(v.as_slice(), 4, k);
    let secret = string_of_range(v.as_slice(), k + 1, v.len());
    proof {
        assert(first_from(v@, '_', 4, k as int));
        assert(secret@ =~= v@.skip(k + 1));
        assert(api_key_parts(value@, user@, secret@));
    }
    Ok((user, secret))
}

/// A version `[v...]major.minor.patch`, each part a `u64` as
/// `str::parse::<u64>` accepts it.
pub open spec fn semver_spec(v: Seq<char>) -> Option<(u64, u64, u64)> {
    let parts = split_on(trim_start_in(v, CharClass::VersionMark), '.');
    if parts.len() == 3 && parse_u64_spec(parts[0]) is Some && parse_u64_spec(parts[1]) is Some
        && parse_u64_spec(parts[2]) is Some {
        Some(
            (
                parse_u64_spec(parts[0])->0,
                parse_u64_spec(parts[1])->0,
                parse_u64_spec(parts[2])->0,
            ),
        )
    } else {
        None
    }
}

/// Parses a Worker version; every leading `v` is ignored.
pub fn semver(v: &str) -> (r: Option<(u64, u64, u64)>)
    ensures
        r == semver_spec(v@),
{
    let c = chars_of(v);
    let a = trim_start_index(c.as_slice(), CharClass::VersionMark);
    let rest = copy_range(c.as_slice(), a, c.len());
    assert(rest@ =~= c@.skip(a as int));
    let parts = split_by(rest.as_slice(), '.');
    if parts.len() != 3 {
        return None;
    }
    assert(parts@[0]@ == seq_views(parts@)[0]);
    assert(parts@[1]@ == seq_views(parts@)[1]);
    assert(parts@[2]@ == seq_views(parts@)[2]);
    let major = parse_u64(parts[0].as_slice());
    let minor = parse_u64(parts[1].as_slice());
    let patch = parse_u64(parts[2].as_slice());
    match (major, minor, patch) {
        (Some(a), Some(b), Some(c)) => Some((a, b, c)),
        _ => None,
    }
}

/// Lexicographic order on version triples.
pub open spec fn version_at_least(v: (u64, u64, u64), min: (u64, u64, u64)) -> bool {
    v.0 > min.0 || (v.0 == min.0 && (v.1 > min.1 || (v.1 == min.1 && v.2 >= min.2)))
}

/// A version as one number: the major part counts above every minor and
/// patch, the minor above every patch.
pub open spec fn version_rank(v: (u64, u64, u64)) -> int {
    v.0 as int * 0x1_0000_0000_0000_0000_0000_0000_0000_0000int + v.1 as int
        * 0x1_0000_0000_0000_0000int + v.2 as int
}

/// A version is at least another exactly when its major part is larger, or
/// the majors agree and its minor part is larger, or both agree and its
/// patch is at least as large: the order of the ranks. It is a total order:
/// two versions at least each other are equal.
pub proof fn lemma_version_order(v: (u64, u64, u64), w: (u64, u64, u64), x: (u64, u64, u64))
    ensures
        version_at_least(v, w) <==> version_rank(v) >= version_rank(w),
        v.0 < w.0 ==> !version_at_least(v, w),
        v.0 == w.0 && v.1 < w.1 ==> !version_at_least(v, w),
        version_at_least(v, v),
        version_at_least(v, w) || version_at_least(w, v),
        version_at_least(v, w) && version_at_least(w, v) ==> v == w,
        version_at_least(v, w) && version_at_least(w, x) ==> version_at_least(v, x),
{
}

pub fn version_ge(v: (u64, u64, u64), min: (u64, u64, u64)) -> (r: bool)
    ensures
        r == version_at_least(v, min),
{
    v.0 > min.0 || (v.0 == min.0 && (v.1 > min.1 || (v.1 == min.1 && v.2 >= min.2)))
}

/// Whether a Worker of this version can run diagnostics (0.1.4 or newer).
pub fn supports_checks(version: &str) -> (r: bool)
    ensures
        r == (semver_spec(version@) matches Some(v) && version_at_least(v, (0, 1, 4))),
{
    match semver(version) {
        Some(v) => version_ge(v, (0, 1, 4)),
        None => false,
    }
}

/// The first line of `ls` that is not blank, trimmed.
pub open spec fn first_nonblank_line(ls: Seq<Seq<char>>) -> Option<Seq<char>>
    decreases ls.len(),
{
    if ls.len() == 0 {
        None
    } else if trim(ls[0]).len() > 0 {
        Some(trim(ls[0]))
    } else {
        first_nonblank_line(ls.drop_first())
    }
}

/// The candidate title in a model answer: its first non-blank line without
/// surrounding quote or emphasis marks, cut to 160 characters.
pub open spec fn title_candidate(value: Seq<char>) -> Option<Seq<char>> {
    match first_nonblank_line(lines(value)) {
        None => None,
        Some(l) => {
            let t = trim(trim_in(l, CharClass::TitleMark));
            Some(
                if t.len() > 160 {
                    t.take(160)
                } else {
                    t
                },
            )
        },
    }
}

/// The title that a model answer names, unless it is the default title or
/// not a valid label.
pub open spec fn generated_title_spec(value: Seq<char>) -> Option<Seq<char>> {
    match title_candidate(value) {
        None => None,
        Some(t) => if t == "Untitled thread"@ || !valid_label(trim(t), 160) {
            None
        } else {
            Some(trim(t))
        },
    }
}

/// Extracts a thread title from the text that the naming request returned.
pub fn generated_thread_title(value: &str) -> (r: Option<String>)
    ensures
        r matches Some(t) ==> generated_title_spec(value@) == Some(t@),
        r is None ==> generated_title_spec(value@) is None,
{
    let v = chars_of(value);
    let ls = split_lines(v.as_slice());
    let ghost views = seq_views(ls@);
    let mut i: usize = 0;
    assert(views.skip(0) =~= views);
    let mut found: Option<Vec<char>> = None;
    while found.is_none() && i < ls.len()
        invariant
            i <= ls.len(),
            views == seq_views(ls@),
            views == lines(v@),
            found is None ==> first_nonblank_line(views.skip(i as int)) == first_nonblank_line(
                views,
            ),
            found matches Some(t) ==> first_nonblank_line(views) == Some(t@),
        decreases ls.len() - i,
    {
        assert(ls@[i as int]@ == views[i as int]);
        let t = trim_chars(ls[i].as_slice(), CharClass::Whitespace);
        assert(views.skip(i as int)[0] == views[i as int]);
        assert(views.skip(i as int).drop_first() =~= views.skip(i + 1));
        if t.len() > 0 {
            found = Some(t);
        }
        i += 1;
    }
    let line = match found {
        Some(l) => l,
        None => {
            assert(views.skip(i as int) =~= Seq::<Seq<char>>::empty());
            return None;
        },
    };
    let unquoted = trim_chars(line.as_slice(), CharClass::TitleMark);
    let t = trim_chars(unquoted.as_slice(), CharClass::Whitespace);
    let cut = if t.len() > 160 {
        copy_range(t.as_slice(), 0, 160)
    } else {
        t
    };
    assert(cut@ == title_candidate(v@)->0);
    proof {
        reveal_strlit("Untitled thread");
    }
    let default_title = chars_of("Untitled thread");
    if seq_equals(cut.as_slice(), default_title.as_slice()) {
        return None;
    }
    let title = string_of(cut.as_slice());
    match label(title.as_str(), "title", 160) {
        Ok(l) => Some(l),
        Err(_) => None,
    }
}

/// The range of an insights query: its name and the earliest start time it
/// covers (none for `all`).
pub open spec fn insight_seconds(range: Seq<char>) -> Option<Option<i64>> {
    if range == "24h"@ {
        Some(Some(86400))
    } else if range == "7d"@ {
        Some(Some(604800))
    } else if range == "30d"@ {
        Some(Some(2592000))
    } else if range == "all"@ {
        Some(None)
    } else {
        None
    }
}

pub open spec fn insight_range_name(value: Option<&str>) -> Seq<char> {
    match value {
        Some(v) => trim(v@),
        None => "7d"@,
    }
}

/// Resolves an insights range at time `now`; the default range is `7d`.
pub fn insight_range_at(value: Option<&str>, now: i64) -> (r: Result<(String, Option<i64>), ApiError>)
    requires
        now >= i64::MIN + 2592000,
    ensures
        ({
            let name = insight_range_name(value);
            &&& (r is Ok <==> insight_seconds(name) is Some)
            &&& (r matches Ok((n, after)) ==> n@ == name && after == (match insight_seconds(
                name,
            )->0 {
                Some(s) => Some((now - s) as i64),
                None => None,
            }))
            &&& (r matches Err(e) ==> ordinary(e, 400, "insight range is invalid"@))
        }),
{
    let range: Vec<char> = match value {
        Some(v) => trimmed_chars(v),
        None => chars_of("7d"),
    };
    let seconds: Option<i64> = if str_equals_chars(range.as_slice(), "24h") {
        Some(86400)
    } else if str_equals_chars(range.as_slice(), "7d") {
        Some(604800)
    } else if str_equals_chars(range.as_slice(), "30d") {
        Some(2592000)
    } else if str_equals_chars(range.as_slice(), "all") {
        None
    } else {
        return Err(ApiError::bad_request("insight range is invalid".to_owned()));
    };
    let after = match seconds {
        Some(s) => Some(now - s),
        None => None,
    };
    Ok((string_of(range.as_slice()), after))
}

/// Whether a character vector spells the string slice `s`.
pub fn str_equals_chars(v: &[char], s: &str) -> (r: bool)
    ensures
        r == (v@ == s@),
{
    let c = chars_of(s);
    seq_equals(v, c.as_slice())
}

/// Resolves an insights range against the current time.
pub fn insight_range(value: Option<&str>) -> (r: Result<(String, Option<i64>), ApiError>)
    ensures
        ({
            let name = insight_range_name(value);
            &&& (r is Ok <==> insight_seconds(name) is Some)
            &&& (r matches Ok((n, _)) ==> n@ == name)
            &&& (r matches Ok((_, after)) ==> (after is Some <==> insight_seconds(name)->0 is Some))
            &&& (r matches Ok((_, after)) ==> exists|t: i64|
                0 <= t <= 10_000_000_000_000 && after == #[trigger] range_start(
                    insight_seconds(name)->0,
                    t,
                ))
            &&& (r matches Err(e) ==> ordinary(e, 400, "insight range is invalid"@))
        }),
{
    let t = now();
    let r = insight_range_at(value, t);
    proof {
        if r is Ok {
            assert(r->Ok_0.1 == range_start(insight_seconds(insight_range_name(value))->0, t));
        }
    }
    r
}

/// The start of a range of `seconds` that ends at `now`; none for `all`.
pub open spec fn range_start(seconds: Option<i64>, now: i64) -> Option<i64> {
    match seconds {
        Some(s) => Some((now - s) as i64),
        None => None,
    }
}

} // verus!
