//! Accounts: bearer credentials, the file that holds a user's database, and
//! the single administrator, who is the first user to claim the role.
use vstd::prelude::*;
use crate::error::{ApiError, ordinary};
use crate::inputs::{api_key_parts, first_from, label, parse_api_key, user_id, valid_label, valid_user_id};
use crate::ids::{hash_secret, hash_secret_spec, lower_hex_digit, new_uuid_simple};
use crate::text::{CharClass, in_class};
use crate::text::{chars_of, extend_str, str_equals, string_of, string_of_range, trim};

verus! {

/// Whether `user` is the administrator, and whether this call makes it so:
/// the stored root user is the administrator; with no root user yet, a
/// bootstrapping call claims the role for `user`.
pub open spec fn admin_spec(root: Option<Seq<char>>, user: Seq<char>, bootstrap: bool) -> (bool, bool) {
    match root {
        Some(r) => (r == user, false),
        None => if bootstrap {
            (true, true)
        } else {
            (false, false)
        },
    }
}

/// Returns whether `user` is the administrator and whether the root user
/// must be stored as `user`. `root` is the stored, non-blank root user.
pub fn admin_decision(root: Option<&str>, user: &str, bootstrap: bool) -> (r: (bool, bool))
    ensures
        r == admin_spec(
            match root {
                Some(x) => Some(x@),
                None => None,
            },
            user@,
            bootstrap,
        ),
{
    match root {
        Some(x) => (str_equals(x, user), false),
        None => if bootstrap {
            (true, true)
        } else {
            (false, false)
        },
    }
}

/// The token of an `Authorization: Bearer <token>` header, which must not be
/// empty.
pub open spec fn bearer_spec(header: Option<Seq<char>>) -> Option<Seq<char>> {
    match header {
        Some(h) => if h.len() > 7 && h.take(7) == "Bearer "@ {
            Some(h.skip(7))
        } else {
            None
        },
        None => None,
    }
}

pub fn bearer(header: Option<&str>) -> (r: Result<String, ApiError>)
    ensures
        (match r {
            Ok(t) => bearer_spec(
                match header {
                    Some(h) => Some(h@),
                    None => None,
                },
            ) == Some(t@),
            Err(e) => bearer_spec(
                match header {
                    Some(h) => Some(h@),
                    None => None,
                },
            ) is None && ordinary(e, 401, "Bearer token is required"@),
        }),
{
    if let Some(h) = header {
        let c = chars_of(h);
        if c.len() > 7 {
            let head = string_of_range(c.as_slice(), 0, 7);
            if str_equals(head.as_str(), "Bearer ") {
                proof {
                    assert(c@.subrange(0, 7) =~= h@.take(7));
                    assert(c@.subrange(7, c@.len() as int) =~= h@.skip(7));
                }
                return Ok(string_of_range(c.as_slice(), 7, c.len()));
            }
        }
        proof {
            assert(c@.subrange(0, 7) =~= h@.take(7));
        }
    }
    Err(ApiError::unauthorized("Bearer token is required".to_owned()))
}

/// The name of the database file of a user.
pub fn user_file_name(id: &str) -> (r: String)
    ensures
        r@ == id@ + ".sqlite3"@,
{
    let mut v = chars_of(id);
    extend_str(&mut v, ".sqlite3");
    string_of(v.as_slice())
}

/// The user whose database a file holds: its name must end in `.sqlite3`
/// and the rest must be a valid user id.
pub open spec fn user_of_file_spec(name: Seq<char>) -> Option<Seq<char>> {
    let ext = ".sqlite3"@;
    if name.len() >= ext.len() && name.skip(name.len() - ext.len()) == ext && valid_user_id(
        trim(name.take(name.len() - ext.len())),
    ) && trim(name.take(name.len() - ext.len())) == name.take(name.len() - ext.len()) {
        Some(name.take(name.len() - ext.len()))
    } else {
        None
    }
}

pub fn user_of_file(name: &str) -> (r: Option<String>)
    ensures
        (match r {
            Some(id) => user_of_file_spec(name@) == Some(id@),
            None => user_of_file_spec(name@) is None,
        }),
{
    let c = chars_of(name);
    proof {
        reveal_strlit(".sqlite3");
    }
    if c.len() < 8 {
        return None;
    }
    let cut = c.len() - 8;
    let ext = string_of_range(c.as_slice(), cut, c.len());
    let stem = string_of_range(c.as_slice(), 0, cut);
    proof {
        assert(c@.subrange(cut as int, c@.len() as int) =~= name@.skip(cut as int));
        assert(c@.subrange(0, cut as int) =~= name@.take(cut as int));
        reveal_strlit(".sqlite3");
    }
    if !str_equals(ext.as_str(), ".sqlite3") {
        return None;
    }
    match user_id(stem.as_str()) {
        Ok(id) => {
            if str_equals(id.as_str(), stem.as_str()) {
                Some(id)
            } else {
                None
            }
        },
        Err(_) => None,
    }
}

/// The key that is handed to its owner once: `cyb_<user>_<secret>`.
pub open spec fn api_key_text(user: Seq<char>, secret: Seq<char>) -> Seq<char> {
    "cyb_"@ + user + "_"@ + secret
}

/// A newly issued API key: what is stored (label, prefix, hash of the
/// secret) and the full key, which is shown once.
pub struct IssuedKey {
    pub label: String,
    pub prefix: String,
    pub secret_hash: String,
    pub key: String,
}

/// Issues an API key for `user`: a random 32-digit secret, of which the
/// first ten digits are kept as the visible prefix and only the hash is
/// stored.
pub fn issue_api_key(user: &str, label_input: &str) -> (r: Result<IssuedKey, ApiError>)
    ensures
        r is Ok <==> valid_label(trim(label_input@), 80),
        r matches Ok(k) ==> exists|raw: Seq<char>|
            raw.len() == 32 && (forall|i: int| 0 <= i < raw.len() ==> lower_hex_digit(
                #[trigger] raw[i],
            )) && k.label@ == trim(label_input@) && k.prefix@ == raw.take(10) && k.secret_hash@
                == hash_secret_spec(raw) && k.key@ == api_key_text(user@, raw),
{
    let l = label(label_input, "label", 80)?;
    let raw = new_uuid_simple();
    let rc = chars_of(raw.as_str());
    let prefix = string_of_range(rc.as_slice(), 0, 10);
    let secret_hash = hash_secret(raw.as_str());
    let mut key = chars_of("cyb_");
    extend_str(&mut key, user);
    extend_str(&mut key, "_");
    extend_str(&mut key, raw.as_str());
    proof {
        assert(rc@.subrange(0, 10) =~= raw@.take(10));
        assert(key@ =~= api_key_text(user@, raw@));
    }
    Ok(IssuedKey { label: l, prefix, secret_hash, key: string_of(key.as_slice()) })
}

/// An issued key authenticates its owner: read back, the key names exactly
/// the user it was issued to and the secret whose hash was stored.
pub proof fn lemma_issued_key_reads_back(user: Seq<char>, secret: Seq<char>, u: Seq<char>, s: Seq<char>)
    requires
        valid_user_id(user),
        secret.len() > 0,
    ensures
        api_key_parts(api_key_text(user, secret), user, secret),
        api_key_parts(api_key_text(user, secret), u, s) ==> u == user && s == secret,
{
    reveal_strlit("cyb_");
    reveal_strlit("_");
    let t = api_key_text(user, secret);
    let k: int = 4 + user.len() as int;
    assert(t.take(4) =~= "cyb_"@);
    assert forall|m: int| 4 <= m < k implies t[m] != '_' by {
        assert(t[m] == user[m - 4]);
        assert(in_class(user[m - 4], CharClass::UserIdChar));
    }
    assert(first_from(t, '_', 4, k));
    assert(t.subrange(4, k) =~= user);
    assert(t.skip(k + 1) =~= secret);
    if api_key_parts(t, u, s) {
        let k2 = choose|k2: int| first_from(t, '_', 4, k2) && u == t.subrange(4, k2) && s == t.skip(
            k2 + 1,
        ) && s.len() > 0;
        if k2 < k {
            assert(t[k2] != '_');
        } else if k2 > k {
            assert(t[k] != '_');
        }
    }
}

/// What an API request's credential names: the user and the hash of the
/// secret that must be stored for one of that user's keys.
pub open spec fn opt_str(o: Option<&str>) -> Option<Seq<char>> {
    match o {
        Some(x) => Some(x@),
        None => None,
    }
}

/// `user` and `hash` are what a credential header names: the key's user
/// part, trimmed and valid, and the hash of its secret.
pub open spec fn credential_names(header: Option<Seq<char>>, user: Seq<char>, hash: Seq<char>) -> bool {
    exists|key: Seq<char>, part: Seq<char>, secret: Seq<char>|
        #![trigger api_key_parts(key, part, secret)]
        bearer_spec(header) == Some(key) && api_key_parts(key, part, secret) && valid_user_id(
            trim(part),
        ) && user == trim(part) && hash == hash_secret_spec(secret)
}

/// A credential header that names a usable key.
pub open spec fn credential_usable(header: Option<Seq<char>>) -> bool {
    exists|key: Seq<char>, part: Seq<char>, secret: Seq<char>|
        #![trigger api_key_parts(key, part, secret)]
        bearer_spec(header) == Some(key) && api_key_parts(key, part, secret) && valid_user_id(
            trim(part),
        )
}

/// A key has one reading: its user part ends at the first `_` after the
/// prefix.
pub proof fn lemma_api_key_parts_unique(
    key: Seq<char>,
    u1: Seq<char>,
    s1: Seq<char>,
    u2: Seq<char>,
    s2: Seq<char>,
)
    requires
        api_key_parts(key, u1, s1),
        api_key_parts(key, u2, s2),
    ensures
        u1 == u2 && s1 == s2,
{
    let k1 = choose|k: int| first_from(key, '_', 4, k) && u1 == key.subrange(4, k) && s1 == key.skip(
        k + 1,
    ) && s1.len() > 0;
    let k2 = choose|k: int| first_from(key, '_', 4, k) && u2 == key.subrange(4, k) && s2 == key.skip(
        k + 1,
    ) && s2.len() > 0;
    if k1 < k2 {
        assert(key[k1] != '_');
    } else if k2 < k1 {
        assert(key[k2] != '_');
    }
}

pub fn api_credentials(header: Option<&str>) -> (r: Result<(String, String), ApiError>)
    ensures
        r matches Ok((u, h)) ==> credential_names(opt_str(header), u@, h@),
        r is Ok <==> credential_usable(opt_str(header)),
        r matches Err(e) ==> e.status == 401,
{
    let ghost hv = opt_str(header);
    let key = match bearer(header) {
        Ok(k) => k,
        Err(e) => {
            return Err(e);
        },
    };
    let (u, secret) = match parse_api_key(key.as_str()) {
        Ok(p) => p,
        Err(e) => {
            return Err(e);
        },
    };
    let id = match user_id(u.as_str()) {
        Ok(id) => id,
        Err(e) => {
            proof {
                assert forall|k: Seq<char>, p: Seq<char>, q: Seq<char>|
                    #![trigger api_key_parts(k, p, q)]
                    bearer_spec(hv) == Some(k) && api_key_parts(k, p, q) implies !valid_user_id(
                    trim(p),
                ) by {
                    lemma_api_key_parts_unique(k, p, q, u@, secret@);
                }
            }
            return Err(e);
        },
    };
    let h = hash_secret(secret.as_str());
    proof {
        assert(bearer_spec(hv) == Some(key@));
        assert(api_key_parts(key@, u@, secret@));
        assert(credential_names(hv, id@, h@));
        assert(credential_usable(hv));
    }
    Ok((id, h))
}

} // verus!
