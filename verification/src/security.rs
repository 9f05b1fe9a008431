//! Who may use the administration channel, and what can go wrong setting the server up.
use vstd::prelude::*;

use crate::text::{is_word, is_word_text, same_text, split_on, split_text, strings_view};

verus! {

pub const CERTIFICATE_FILENAME: &'static str = "cert.pem";

pub const CERTIFICATE_PRIVATE_KEY_FILENAME: &'static str = "key.pem";

pub const ADMIN_CREDENTIALS_ENV_VAR: &'static str = "ADMIN_CREDENTIALS";

/// What can go wrong while setting the server up.
#[derive(Debug, Clone, PartialEq, Eq)]
pub enum ConfigurationError {
    CertificateError(String),
    PrivateKeyError(String),
    TlsConfigurationError(String),
    CredentialsVarIsNotSet,
    WrongCredentialsFormat,
}

/// The text of a configuration error.
pub open spec fn configuration_message(e: ConfigurationError) -> Seq<char> {
    match e {
        ConfigurationError::CertificateError(s) => CERTIFICATE_FILENAME@ + ": "@ + s@,
        ConfigurationError::PrivateKeyError(s) => CERTIFICATE_PRIVATE_KEY_FILENAME@ + ": "@ + s@,
        ConfigurationError::TlsConfigurationError(s) => "Certificate issue: "@ + s@,
        ConfigurationError::CredentialsVarIsNotSet => "Expecting "@ + ADMIN_CREDENTIALS_ENV_VAR@ + " to be set in .env file."@,
        ConfigurationError::WrongCredentialsFormat => "User credentials must be in format 'user1:pass1,user2:pass2'"@,
    }
}

impl ConfigurationError {
    /// The text of the error.
    pub fn message(&self) -> (m: String)
        ensures
            m@ == configuration_message(*self),
    {
        match self {
            ConfigurationError::CertificateError(s) => {
                let mut m = String::from_str(CERTIFICATE_FILENAME);
                m.append(": ");
                m.append(s.as_str());
                m
            },
            ConfigurationError::PrivateKeyError(s) => {
                let mut m = String::from_str(CERTIFICATE_PRIVATE_KEY_FILENAME);
                m.append(": ");
                m.append(s.as_str());
                m
            },
            ConfigurationError::TlsConfigurationError(s) => {
                let mut m = String::from_str("Certificate issue: ");
                m.append(s.as_str());
                m
            },
            ConfigurationError::CredentialsVarIsNotSet => {
                let mut m = String::from_str("Expecting ");
                m.append(ADMIN_CREDENTIALS_ENV_VAR);
                m.append(" to be set in .env file.");
                m
            },
            ConfigurationError::WrongCredentialsFormat => {
                String::from_str("User credentials must be in format 'user1:pass1,user2:pass2'")
            },
        }
    }
}

/// A name for the digest of a password: what `DefaultHasher::new()` finishes with once the
/// text is hashed into it.
pub uninterp spec fn password_digest(password: Seq<char>) -> u64;

/// Digests a password with std's `DefaultHasher`, through `BuildHasher::hash_one` on a
/// `BuildHasherDefault<DefaultHasher>`, which hashes the text into a fresh
/// `DefaultHasher::new()` and finishes it. `DefaultHasher::new` is documented to give the same
/// hasher on every call, so the digest is a function of the text: the contract names it and
/// says nothing of its value.
#[verifier::external_body]
fn digest_password(password: &str) -> (d: u64)
    ensures
        d == password_digest(password@),
{
    std::hash::BuildHasher::hash_one(&std::hash::BuildHasherDefault::<std::collections::hash_map::DefaultHasher>::default(), password)
}

/// Whether a piece of the credentials is a pair `user:password` of ASCII letters and digits.
pub open spec fn pair_ok(piece: Seq<char>) -> bool {
    let parts = split_on(piece, ':');
    parts.len() == 2 && is_word(parts[0]) && is_word(parts[1])
}

/// Whether a text lists credentials: one or more pairs `user:password` of ASCII letters and
/// digits, separated by commas (the pattern `^[a-zA-Z0-9]+:[a-zA-Z0-9]+(,[a-zA-Z0-9]+:[a-zA-Z0-9]+)*$`).
pub open spec fn credentials_ok(s: Seq<char>) -> bool {
    forall|i: int| 0 <= i < split_on(s, ',').len() ==> pair_ok(#[trigger] split_on(s, ',')[i])
}

/// The users that a list of pairs gives, each with the digest of its password; a user
/// listed twice keeps its last password.
pub open spec fn credentials_map(pieces: Seq<Seq<char>>) -> Map<Seq<char>, u64>
    decreases pieces.len(),
{
    if pieces.len() == 0 {
        Map::empty()
    } else {
        let parts = split_on(pieces.last(), ':');
        credentials_map(pieces.drop_last()).insert(parts[0], password_digest(parts[1]))
    }
}

/// The users allowed on the administration channel, with their passwords' digests.
pub struct SecurityContext {
    users: Vec<(String, u64)>,
}

pub open spec fn entries_view(v: Seq<(String, u64)>) -> Seq<(Seq<char>, u64)> {
    v.map_values(|e: (String, u64)| (e.0@, e.1))
}

pub open spec fn has_user(v: Seq<(Seq<char>, u64)>, u: Seq<char>) -> bool {
    exists|i: int| 0 <= i < v.len() && v[i].0 == u
}

pub open spec fn user_idx(v: Seq<(Seq<char>, u64)>, u: Seq<char>) -> int {
    choose|i: int| 0 <= i < v.len() && v[i].0 == u
}

/// The users of a list of entries, as a map.
pub open spec fn users_map(v: Seq<(Seq<char>, u64)>) -> Map<Seq<char>, u64> {
    Map::new(|u: Seq<char>| has_user(v, u), |u: Seq<char>| v[user_idx(v, u)].1)
}

pub open spec fn users_distinct(v: Seq<(Seq<char>, u64)>) -> bool {
    forall|i: int, j: int| 0 <= i < v.len() && 0 <= j < v.len() && i != j ==> #[trigger] v[i].0 != #[trigger] v[j].0
}

impl View for SecurityContext {
    type V = Map<Seq<char>, u64>;

    closed spec fn view(&self) -> Map<Seq<char>, u64> {
        users_map(entries_view(self.users@))
    }
}

/// Setting a user's digest in a list of entries with distinct users sets it in their map.
pub proof fn lemma_users_set(v: Seq<(Seq<char>, u64)>, k: int, u: Seq<char>, d: u64)
    requires
        users_distinct(v),
        0 <= k < v.len(),
        v[k].0 == u,
    ensures
        users_distinct(v.update(k, (u, d))),
        users_map(v.update(k, (u, d))) == users_map(v).insert(u, d),
{
    let v2 = v.update(k, (u, d));
    assert forall|w: Seq<char>| #[trigger] has_user(v2, w) <==> has_user(v, w) by {
        if has_user(v, w) {
            let i = choose|i: int| 0 <= i < v.len() && v[i].0 == w;
            assert(v2[i].0 == w);
        }
        if has_user(v2, w) {
            let i = choose|i: int| 0 <= i < v2.len() && v2[i].0 == w;
            assert(v[i].0 == w);
        }
    }
    assert forall|w: Seq<char>| has_user(v, w) && w != u implies users_map(v2)[w] == users_map(v)[w] by {
        assert(has_user(v2, w));
        let i = user_idx(v, w);
        let i2 = user_idx(v2, w);
        assert(v2[i2].0 == w);
        assert(i2 != k);
        assert(v[i2].0 == w);
        assert(i == i2) by {
            if i != i2 {
                assert(v[i].0 != v[i2].0);
            }
        }
    }
    assert(has_user(v2, u)) by {
        assert(v2[k].0 == u);
    }
    assert(users_map(v2)[u] == d) by {
        let i2 = user_idx(v2, u);
        assert(i2 == k) by {
            if i2 != k {
                assert(v[i2].0 == u);
                assert(v[i2].0 != v[k].0);
            }
        }
    }
    assert(users_map(v2) =~= users_map(v).insert(u, d));
}

/// Adding an entry for a new user adds it to their map.
pub proof fn lemma_users_push(v: Seq<(Seq<char>, u64)>, u: Seq<char>, d: u64)
    requires
        users_distinct(v),
        !has_user(v, u),
    ensures
        users_distinct(v.push((u, d))),
        users_map(v.push((u, d))) == users_map(v).insert(u, d),
{
    let v2 = v.push((u, d));
    assert forall|i: int, j: int| 0 <= i < v2.len() && 0 <= j < v2.len() && i != j implies #[trigger] v2[i].0 != #[trigger] v2[j].0 by {
        if i < v.len() && j < v.len() {
            assert(v[i].0 != v[j].0);
        } else if i < v.len() {
            assert(v[i].0 != u);
        } else {
            assert(v[j].0 != u);
        }
    }
    assert forall|w: Seq<char>| #[trigger] has_user(v2, w) <==> (has_user(v, w) || w == u) by {
        if has_user(v, w) {
            let i = choose|i: int| 0 <= i < v.len() && v[i].0 == w;
            assert(v2[i].0 == w);
        }
        if has_user(v2, w) {
            let i = choose|i: int| 0 <= i < v2.len() && v2[i].0 == w;
            if i < v.len() {
                assert(v[i].0 == w);
            }
        }
        if w == u {
            assert(v2[v.len() as int].0 == u);
        }
    }
    assert forall|w: Seq<char>| has_user(v, w) implies users_map(v2)[w] == users_map(v)[w] by {
        assert(has_user(v2, w));
        let i = user_idx(v, w);
        let i2 = user_idx(v2, w);
        assert(v2[i2].0 == w);
        assert(i2 < v.len());
        assert(v[i2].0 == w);
        assert(i == i2) by {
            if i != i2 {
                assert(v[i].0 != v[i2].0);
            }
        }
    }
    assert(users_map(v2)[u] == d) by {
        let i2 = user_idx(v2, u);
        assert(i2 == v.len()) by {
            if i2 < v.len() {
                assert(v[i2].0 == u);
            }
        }
    }
    assert(users_map(v2) =~= users_map(v).insert(u, d));
}

impl SecurityContext {
    #[verifier::type_invariant]
    closed spec fn distinct_users(self) -> bool {
        users_distinct(entries_view(self.users@))
    }

    /// Reads the credentials of the administrators: pairs `user:password` of ASCII letters and
    /// digits separated by commas; any other text is refused with `WrongCredentialsFormat`.
    pub fn new(credentials: &str) -> (r: Result<SecurityContext, ConfigurationError>)
        ensures
            credentials_ok(credentials@) ==> (r matches Ok(ctx) && ctx@ == credentials_map(split_on(credentials@, ','))),
            !credentials_ok(credentials@) ==> r matches Err(ConfigurationError::WrongCredentialsFormat),
    {
        let pieces = split_text(credentials, ',');
        let ghost pv = strings_view(pieces@);
        let mut users: Vec<(String, u64)> = Vec::new();
        let mut i: usize = 0;
        proof {
            assert(pv.take(0) =~= Seq::<Seq<char>>::empty());
            assert(users_map(entries_view(users@)) =~= Map::<Seq<char>, u64>::empty());
        }
        while i < pieces.len()
            invariant
                i <= pieces@.len(),
                pv == strings_view(pieces@),
                pv == split_on(credentials@, ','),
                forall|j: int| 0 <= j < i ==> pair_ok(#[trigger] pv[j]),
                users_distinct(entries_view(users@)),
                users_map(entries_view(users@)) == credentials_map(pv.take(i as int)),
            decreases pieces@.len() - i,
        {
            let parts = split_text(pieces[i].as_str(), ':');
            proof {
                assert(pv[i as int] == pieces@[i as int]@);
            }
            if parts.len() != 2 || !is_word_text(parts[0].as_str()) || !is_word_text(parts[1].as_str()) {
                proof {
                    assert(strings_view(parts@).len() == parts@.len());
                    if parts@.len() == 2 {
                        assert(strings_view(parts@)[0] == parts@[0]@);
                        assert(strings_view(parts@)[1] == parts@[1]@);
                    }
                    assert(!pair_ok(pv[i as int]));
                }
                return Err(ConfigurationError::WrongCredentialsFormat);
            }
            let user = parts[0].clone();
            let d = digest_password(parts[1].as_str());
            let ghost ev = entries_view(users@);
            proof {
                assert(strings_view(parts@)[0] == parts@[0]@);
                assert(strings_view(parts@)[1] == parts@[1]@);
                assert(pv.take(i + 1).drop_last() =~= pv.take(i as int));
                assert(pv.take(i + 1).last() == pv[i as int]);
            }
            let mut k: usize = 0;
            while k < users.len() && !same_text(users[k].0.as_str(), user.as_str())
                invariant
                    k <= users@.len(),
                    ev == entries_view(users@),
                    forall|j: int| 0 <= j < k ==> (#[trigger] ev[j]).0 != user@,
                decreases users@.len() - k,
            {
                k = k + 1;
            }
            if k < users.len() {
                proof {
                    lemma_users_set(ev, k as int, user@, d);
                }
                users.set(k, (user, d));
                proof {
                    assert(entries_view(users@) =~= ev.update(k as int, (parts@[0]@, d)));
                }
            } else {
                proof {
                    assert(!has_user(ev, user@));
                    lemma_users_push(ev, user@, d);
                }
                users.push((user, d));
                proof {
                    assert(entries_view(users@) =~= ev.push((parts@[0]@, d)));
                }
            }
            i = i + 1;
        }
        proof {
            assert(pv.take(i as int) =~= pv);
        }
        Ok(SecurityContext { users })
    }

    /// Whether a user is known and the password is the one given for it.
    pub fn is_valid(&self, username: &str, password: &str) -> (r: bool)
        ensures
            r == (self@.contains_key(username@) && self@[username@] == password_digest(password@)),
    {
        proof {
            use_type_invariant(self);
        }
        let hashed_password = digest_password(password);
        let ghost ev = entries_view(self.users@);
        let mut k: usize = 0;
        while k < self.users.len()
            invariant
                k <= self.users@.len(),
                ev == entries_view(self.users@),
                users_distinct(ev),
                hashed_password == password_digest(password@),
                forall|j: int| 0 <= j < k ==> (#[trigger] ev[j]).0 != username@,
            decreases self.users@.len() - k,
        {
            if same_text(self.users[k].0.as_str(), username) {
                proof {
                    assert(ev[k as int].0 == username@);
                    assert(has_user(ev, username@));
                    assert(self@ == users_map(ev));
                    let i = user_idx(ev, username@);
                    assert(i == k) by {
                        if i != k {
                            assert(ev[i].0 != ev[k as int].0);
                        }
                    }
                    assert(users_map(ev).contains_key(username@));
                    assert(users_map(ev)[username@] == ev[k as int].1);
                    assert(ev[k as int].1 == self.users@[k as int].1);
                    assert(self@ == users_map(ev));
                }
                let stored = self.users[k].1;
                let r = stored == hashed_password;
                proof {
                    assert(stored == ev[k as int].1);
                    assert(r == (self@.contains_key(username@) && self@[username@] == password_digest(password@)));
                }
                return r;
            }
            k = k + 1;
        }
        proof {
            assert(!has_user(ev, username@));
            assert(self@ == users_map(ev));
        }
        false
    }
}

/// The user of a piece `user:password`.
pub open spec fn piece_user(piece: Seq<char>) -> Seq<char> {
    split_on(piece, ':')[0]
}

/// The password of a piece `user:password`.
pub open spec fn piece_password(piece: Seq<char>) -> Seq<char> {
    split_on(piece, ':')[1]
}

/// The users of a list of credentials are exactly those listed, each with the digest of the
/// password of its last listing.
pub proof fn lemma_credentials_users(pieces: Seq<Seq<char>>, u: Seq<char>)
    ensures
        credentials_map(pieces).contains_key(u) <==> exists|i: int| 0 <= i < pieces.len() && #[trigger] piece_user(pieces[i]) == u,
        forall|i: int| 0 <= i < pieces.len() && #[trigger] piece_user(pieces[i]) == u
            && (forall|j: int| i < j < pieces.len() ==> #[trigger] piece_user(pieces[j]) != u)
            ==> credentials_map(pieces)[u] == password_digest(piece_password(pieces[i])),
    decreases pieces.len(),
{
    if pieces.len() > 0 {
        let prev = pieces.drop_last();
        lemma_credentials_users(prev, u);
        let last = pieces.len() - 1;
        assert(pieces[last] == pieces.last());
        assert forall|i: int| 0 <= i < prev.len() implies #[trigger] prev[i] == pieces[i] by {}
        if credentials_map(pieces).contains_key(u) {
            if piece_user(pieces.last()) != u {
                let i = choose|i: int| 0 <= i < prev.len() && #[trigger] piece_user(prev[i]) == u;
                assert(piece_user(pieces[i]) == u);
            } else {
                assert(piece_user(pieces[last]) == u);
            }
        }
        if exists|i: int| 0 <= i < pieces.len() && #[trigger] piece_user(pieces[i]) == u {
            let i = choose|i: int| 0 <= i < pieces.len() && #[trigger] piece_user(pieces[i]) == u;
            if i < last {
                assert(piece_user(prev[i]) == u);
            }
        }
        assert forall|i: int| 0 <= i < pieces.len() && #[trigger] piece_user(pieces[i]) == u
            && (forall|j: int| i < j < pieces.len() ==> #[trigger] piece_user(pieces[j]) != u)
            implies credentials_map(pieces)[u] == password_digest(piece_password(pieces[i])) by {
            if i < last {
                assert(piece_user(pieces[last]) != u);
                assert(piece_user(prev[i]) == u);
                assert forall|j: int| i < j < prev.len() implies #[trigger] piece_user(prev[j]) != u by {
                    assert(piece_user(pieces[j]) != u);
                }
            }
        }
    }
}

} // verus!
