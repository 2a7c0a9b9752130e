//! Accounts and sessions: the checks that guard the API and the dashboard,
//! the documents of a registration, password hashing and session tokens.

use vstd::prelude::*;
use vstd::string::{StrSliceExecFns, StringExecFns};

use crate::compare::WhereOp;
use crate::document::{DocModel, Document};
use crate::key_map::{entries_map, KeyMap};
use crate::keys::{compare_keys, KeyOrder};
use crate::query::{Query, WhereFilter};
use crate::value::{fields_view, Json, Value};

verus! {

/// The collection of credentials.
pub open spec fn authentication_collection() -> Seq<char> {
    "authentication"@
}

/// The message of a write to the credentials collection with other fields.
pub open spec fn authentication_fields_message() -> Seq<char> {
    "A coleção 'authentication' só pode aceitar os campos 'email' e 'password_hash'"@
}

/// A field that a credentials document may hold: `email`, `password_hash`,
/// or any key starting with `_`.
pub open spec fn allowed_authentication_field(k: Seq<char>) -> bool {
    k == "email"@ || k == "password_hash"@ || (k.len() > 0 && k[0] == '_')
}

/// Whether `a` and `b` are the same string.
pub fn same_str(a: &str, b: &str) -> (r: bool)
    ensures
        r == (a@ == b@),
{
    match compare_keys(a, b) {
        KeyOrder::Equal => true,
        _ => false,
    }
}

fn allowed_field(k: &str) -> (r: bool)
    ensures
        r == allowed_authentication_field(k@),
{
    proof {
        reveal_strlit("email");
        reveal_strlit("password_hash");
    }
    if same_str(k, "email") || same_str(k, "password_hash") {
        return true;
    }
    if k.is_empty() {
        return false;
    }
    k.get_char(0) == '_'
}

/// Writes to the `authentication` collection may only hold the fields of
/// credentials; other collections take any field.
pub fn validate_authentication_fields(collection_name: &str, fields: &KeyMap<Value>) -> (r: Result<(), String>)
    ensures
        match r {
            Ok(()) => collection_name@ != authentication_collection() || forall|k: Seq<char>|
                #[trigger] fields@.contains_key(k) ==> allowed_authentication_field(k),
            Err(e) => e@ == authentication_fields_message() && collection_name@ == authentication_collection()
                && exists|k: Seq<char>| #[trigger] fields@.contains_key(k) && !allowed_authentication_field(k),
        },
{
    proof {
        reveal_strlit("authentication");
    }
    if !same_str(collection_name, "authentication") {
        return Ok(());
    }
    let es = fields.entries();
    let n = es.len();
    let mut i: usize = 0;
    while i < n
        invariant
            n == es@.len(),
            collection_name@ == authentication_collection(),
            entries_map(es@) == fields@,
            crate::key_map::entries_sorted(es@),
            i <= n,
            forall|j: int| 0 <= j < i ==> allowed_authentication_field(#[trigger] es@[j].0@),
        decreases n - i,
    {
        if !allowed_field(es[i].0.as_str()) {
            proof {
                crate::key_map::lemma_entries_map_index(es@, i as int);
                assert(fields@.contains_key(es@[i as int].0@));
            }
            return Err("A coleção 'authentication' só pode aceitar os campos 'email' e 'password_hash'".to_owned());
        }
        i = i + 1;
    }
    proof {
        assert forall|k: Seq<char>| #[trigger] fields@.contains_key(k) implies allowed_authentication_field(k) by {
            let j = choose|j: int| 0 <= j < es@.len() && #[trigger] es@[j].0@ == k;
        }
    }
    Ok(())
}

/// The value of an `Authorization` header that grants access to the API:
/// `Bearer ` and the key.
pub open spec fn bearer_header(key: Seq<char>) -> Seq<char> {
    "Bearer "@ + key
}

/// Whether an `Authorization` header grants access to the API with key `expected_key`.
pub fn is_bearer_authorized(header: Option<&str>, expected_key: &str) -> (r: bool)
    ensures
        r == (header matches Some(h) && h@ == bearer_header(expected_key@)),
{
    match header {
        Some(h) => {
            let mut full = "Bearer ".to_owned();
            full.append(expected_key);
            same_str(h, full.as_str())
        },
        None => false,
    }
}

/// The value of the dashboard's session cookie.
pub open spec fn session_cookie_value() -> Seq<char> {
    "authenticated_admin"@
}

/// Whether the dashboard's session cookie is present with its value.
pub fn is_session_cookie_valid(cookie: Option<&str>) -> (r: bool)
    ensures
        r == (cookie matches Some(c) && c@ == session_cookie_value()),
{
    match cookie {
        Some(c) => same_str(c, "authenticated_admin"),
        None => false,
    }
}

/// Whether the dashboard login form holds the administrator's user and password.
pub fn admin_credentials_match(
    username: Option<&str>,
    password: Option<&str>,
    admin_user: &str,
    admin_password: &str,
) -> (r: bool)
    ensures
        r == ((username matches Some(u) && u@ == admin_user@) && (password matches Some(p) && p@
            == admin_password@)),
{
    let user_ok = match username {
        Some(u) => same_str(u, admin_user),
        None => false,
    };
    let pass_ok = match password {
        Some(p) => same_str(p, admin_password),
        None => false,
    };
    user_ok && pass_ok
}

/// Whether the value of `APP_ENV` names the production environment.
pub fn is_production(app_env: &str) -> (r: bool)
    ensures
        r == (app_env@ == "prod"@),
{
    same_str(app_env, "prod")
}

/// A password with the server's hashing key appended, as it is hashed.
pub fn salted_password(password: &str, hash_key: &str) -> (r: String)
    ensures
        r@ == password@ + hash_key@,
{
    let mut r = password.to_owned();
    r.append(hash_key);
    r
}

/// What `bcrypt::verify` returns for a password and a stored hash: `Some(b)`
/// for `Ok(b)`, `None` for an error. It is a function of the two strings.
pub uninterp spec fn bcrypt_verify_outcome(password: Seq<char>, hash: Seq<char>) -> Option<bool>;

/// Calls `bcrypt::hash` with cost 10 (a random salt is drawn); the error (the
/// random source failed) becomes its text. Claimed from the crate's source: a
/// hash is 60 ASCII characters, and `bcrypt::verify` of the same password
/// against it returns `Ok(true)` (both truncate the password alike and the
/// hash carries its cost and salt). Which salt is drawn is not claimed.
#[verifier::external_body]
pub(crate) fn hash_password(password: &str) -> (r: Result<String, String>)
    ensures
        r matches Ok(h) ==> h@.len() == 60 && bcrypt_verify_outcome(password@, h@) == Some(true),
{
    match bcrypt::hash(password, 10) {
        Ok(h) => Ok(h),
        Err(e) => Err(e.to_string()),
    }
}

/// Calls `bcrypt::verify`; an error (a malformed hash) becomes `None`. The
/// outcome depends on the two strings alone; the crate rejects every hash that
/// is not 60 bytes long.
#[verifier::external_body]
pub(crate) fn verify_password(password: &str, hash: &str) -> (r: Option<bool>)
    ensures
        r == bcrypt_verify_outcome(password@, hash@),
        vstd::utf8::encode_utf8(hash@).len() != 60 ==> r is None,
{
    match bcrypt::verify(password, hash) {
        Ok(b) => Some(b),
        Err(_) => None,
    }
}

/// The hash stored for a new account: the password salted with the server's
/// key, hashed by bcrypt with cost 10; bcrypt's error text when hashing
/// fails (only when its random source fails).
pub fn hash_salted_password(password: &str, hash_key: &str) -> (r: Result<String, String>)
    ensures
        r matches Ok(h) ==> h@.len() == 60 && bcrypt_verify_outcome(password@ + hash_key@, h@) == Some(true),
{
    let salted = salted_password(password, hash_key);
    hash_password(salted.as_str())
}

/// Whether `password`, salted with `hash_key`, matches the stored hash.
pub fn password_matches(password: &str, hash_key: &str, stored_hash: &str) -> (r: bool)
    ensures
        r == (bcrypt_verify_outcome(password@ + hash_key@, stored_hash@) == Some(true)),
{
    let salted = salted_password(password, hash_key);
    match verify_password(salted.as_str(), stored_hash) {
        Some(b) => b,
        None => false,
    }
}

/// A lower-case hexadecimal digit.
pub open spec fn is_lower_hex_digit(c: char) -> bool {
    ('0' as u32 <= c as u32 && c as u32 <= '9' as u32) || ('a' as u32 <= c as u32 && c as u32 <= 'f' as u32)
}

/// The text of a version 4 UUID in hyphenated lower-case form: 36
/// characters, hyphens at places 8, 13, 18 and 23, hexadecimal digits
/// elsewhere, the version digit `4` at place 14 and the variant digit (one of
/// `8`, `9`, `a`, `b`) at place 19.
pub open spec fn is_uuid_v4_text(s: Seq<char>) -> bool {
    &&& s.len() == 36
    &&& forall|i: int|
        0 <= i < 36 ==> if i == 8 || i == 13 || i == 18 || i == 23 {
            s[i] == '-'
        } else {
            is_lower_hex_digit(#[trigger] s[i])
        }
    &&& s[14] == '4'
    &&& (s[19] == '8' || s[19] == '9' || s[19] == 'a' || s[19] == 'b')
}

/// Calls `uuid::Uuid::new_v4` and formats it with `to_string`: a random
/// version 4 UUID in hyphenated lower-case form. Claimed from the crate's
/// source: `new_v4` masks a random `u128` so that the version nibble is 4
/// and the variant bits are `10`, and `Display` writes the 32 nibbles as
/// lower-case hexadecimal with hyphens at places 8, 13, 18 and 23. The random
/// bits themselves are not claimed.
#[verifier::external_body]
pub(crate) fn new_uuid_string() -> (r: String)
    ensures
        is_uuid_v4_text(r@),
{
    uuid::Uuid::new_v4().to_string()
}

/// The id under which a document is created: a fresh identifier when the
/// client asks for `new_id`, the id given otherwise.
pub fn resolve_document_id(requested: String) -> (r: String)
    ensures
        requested@ != "new_id"@ ==> r == requested,
        requested@ == "new_id"@ ==> is_uuid_v4_text(r@),
{
    if same_str(requested.as_str(), "new_id") {
        new_uuid_string()
    } else {
        requested
    }
}

/// The credentials document of a new account.
pub open spec fn credentials_model(email: Seq<char>, password_hash: Seq<char>) -> DocModel {
    DocModel::empty().insert("email"@, Json::Str(email)).insert("password_hash"@, Json::Str(password_hash))
}

/// A new account: a fresh id, and the two documents of its registration.
pub fn new_account(email: String, password_hash: String, extra: KeyMap<Value>) -> (r: (String, Document, Document))
    ensures
        is_uuid_v4_text(r.0@),
        r.1@ == credentials_model(email@, password_hash@),
        r.2@ == fields_view(extra),
{
    let id = new_uuid_string();
    let (auth, profile) = registration_documents(email, password_hash, extra);
    (id, auth, profile)
}

/// The next step of a registration, once it has tried to store a document.
#[derive(Debug, PartialEq)]
pub enum RegistrationStep {
    /// The credentials are stored: store the profile under the same id.
    StoreProfile,
    /// The credentials could not be stored: the account already exists.
    AlreadyExists,
    /// The profile could not be stored: delete the stored credentials again
    /// and report this message.
    RollBack(String),
    /// Both documents are stored: the account is created.
    Created,
}

/// The message reported when the profile of a new account cannot be stored.
pub open spec fn profile_failure_message(error: Seq<char>) -> Seq<char> {
    "Erro ao criar perfil de usuário: "@ + error
}

/// What a registration does after trying to store the credentials.
pub fn registration_after_credentials(stored: &Result<(), String>) -> (step: RegistrationStep)
    ensures
        step == (if stored is Ok {
            RegistrationStep::StoreProfile
        } else {
            RegistrationStep::AlreadyExists
        }),
{
    match stored {
        Ok(_) => RegistrationStep::StoreProfile,
        Err(_) => RegistrationStep::AlreadyExists,
    }
}

/// What a registration does after trying to store the profile: it is done,
/// or it takes the credentials back and reports why.
pub fn registration_after_profile(stored: Result<(), String>) -> (step: RegistrationStep)
    ensures
        match stored {
            Ok(_) => step == RegistrationStep::Created,
            Err(e) => step matches RegistrationStep::RollBack(m) && m@ == profile_failure_message(e@),
        },
{
    match stored {
        Ok(_) => RegistrationStep::Created,
        Err(e) => {
            let mut m = "Erro ao criar perfil de usuário: ".to_owned();
            m.append(e.as_str());
            RegistrationStep::RollBack(m)
        },
    }
}

/// The two documents of a registration: the credentials, and the profile
/// made of the other fields sent.
pub fn registration_documents(email: String, password_hash: String, extra: KeyMap<Value>) -> (r: (Document, Document))
    ensures
        r.0@ == credentials_model(email@, password_hash@),
        r.1@ == fields_view(extra),
{
    let mut auth = KeyMap::new();
    let ghost em = email@;
    let ghost hm = password_hash@;
    let k1 = "email".to_owned();
    let k2 = "password_hash".to_owned();
    proof {
        reveal_strlit("email");
        reveal_strlit("password_hash");
    }
    auth.insert(k1, Value::String(email));
    auth.insert(k2, Value::String(password_hash));
    let d = Document::new(auth);
    proof {
        assert(d@ =~= credentials_model(em, hm));
    }
    (d, Document::new(extra))
}

/// The query that finds the credentials of `email`.
pub fn login_query(email: &str) -> (q: Query)
    ensures
        q.filters matches Some(fs) && fs@.len() == 1 && fs@[0].field@ == "email"@ && fs@[0].op == WhereOp::Equal
            && fs@[0].value@ == Json::Str(email@),
        q.order_by is None,
        q.limit == Some(1usize),
        q.offset is None,
{
    let f = WhereFilter { field: "email".to_owned(), op: WhereOp::Equal, value: Value::String(email.to_owned()) };
    let mut fs = Vec::new();
    fs.push(f);
    Query { filters: Some(fs), order_by: None, limit: Some(1), offset: None }
}

/// The password hash stored in a credentials document, when it is a string.
pub fn stored_password_hash(doc: &Document) -> (r: Option<String>)
    ensures
        match r {
            Some(h) => doc@.contains_key("password_hash"@) && doc@["password_hash"@] == Json::Str(h@),
            None => !(doc@.contains_key("password_hash"@) && doc@["password_hash"@] is Str),
        },
{
    match doc.fields.get("password_hash") {
        Some(Value::String(s)) => Some(s.clone()),
        _ => None,
    }
}

/// Why a login is refused.
#[derive(Clone, Copy, Debug, PartialEq, Eq)]
pub enum LoginError {
    /// No account has the email, or the password does not match.
    InvalidCredentials,
    /// The credentials document holds no string hash.
    CorruptCredentials,
}

/// The account and stored hash that a login is checked against: the first
/// result of the credentials query.
pub fn login_candidate(results: &Vec<(String, Document)>) -> (r: Result<(String, String), LoginError>)
    ensures
        results@.len() == 0 ==> r == Err::<(String, String), LoginError>(LoginError::InvalidCredentials),
        results@.len() > 0 ==> match r {
            Ok((id, h)) => id == results@[0].0 && results@[0].1@.contains_key("password_hash"@)
                && results@[0].1@["password_hash"@] == Json::Str(h@),
            Err(e) => e == LoginError::CorruptCredentials && !(results@[0].1@.contains_key("password_hash"@)
                && results@[0].1@["password_hash"@] is Str),
        },
{
    if results.len() == 0 {
        return Err(LoginError::InvalidCredentials);
    }
    match stored_password_hash(&results[0].1) {
        Some(h) => Ok((results[0].0.clone(), h)),
        None => Err(LoginError::CorruptCredentials),
    }
}

/// Sessions of logged-in accounts: tokens mapped to account ids.
#[derive(Debug)]
pub struct Sessions {
    tokens: KeyMap<String>,
}

pub open spec fn strings_view(m: KeyMap<String>) -> Map<Seq<char>, Seq<char>> {
    m@.map_values(|s: String| s@)
}

impl View for Sessions {
    type V = Map<Seq<char>, Seq<char>>;

    closed spec fn view(&self) -> Map<Seq<char>, Seq<char>> {
        strings_view(self.tokens)
    }
}

/// The sessions after rotating `old` to `new`.
pub open spec fn rotated(m: Map<Seq<char>, Seq<char>>, old: Seq<char>, new: Seq<char>) -> Map<
    Seq<char>,
    Seq<char>,
> {
    m.remove(old).insert(new, m[old])
}

impl Sessions {
    /// No session.
    pub fn new() -> (s: Self)
        ensures
            s@ == Map::<Seq<char>, Seq<char>>::empty(),
    {
        let s = Sessions { tokens: KeyMap::new() };
        assert(s@ =~= Map::<Seq<char>, Seq<char>>::empty());
        s
    }

    /// Opens a session `token` for account `user_id`.
    pub fn start(&mut self, token: String, user_id: String)
        ensures
            final(self)@ == old(self)@.insert(token@, user_id@),
    {
        proof {
            crate::document::lemma_map_values_insert(self.tokens@, token@, user_id, |s: String| s@);
        }
        self.tokens.insert(token, user_id);
    }

    /// The account of session `token`, if it is open.
    pub fn user_of(&self, token: &str) -> (r: Option<String>)
        ensures
            r is Some == self@.contains_key(token@),
            r matches Some(u) ==> u@ == self@[token@],
    {
        match self.tokens.get(token) {
            Some(u) => Some(u.clone()),
            None => None,
        }
    }

    /// Opens a session for account `user_id` under a fresh token, and hands
    /// back the token.
    pub fn open(&mut self, user_id: String) -> (token: String)
        ensures
            is_uuid_v4_text(token@),
            final(self)@ == old(self)@.insert(token@, user_id@),
    {
        let token = new_uuid_string();
        self.start(token.clone(), user_id);
        token
    }

    /// Replaces session `old_token` by one under a fresh token, for the same
    /// account; hands back the account and the new token, or `None` (and
    /// changes nothing) when `old_token` is not open.
    pub fn revalidate(&mut self, old_token: &str) -> (r: Option<(String, String)>)
        ensures
            r is Some == old(self)@.contains_key(old_token@),
            match r {
                Some((u, t)) => u@ == old(self)@[old_token@] && is_uuid_v4_text(t@) && final(self)@ == rotated(
                    old(self)@,
                    old_token@,
                    t@,
                ),
                None => final(self)@ == old(self)@,
            },
    {
        if self.tokens.get(old_token).is_none() {
            return None;
        }
        let token = new_uuid_string();
        match self.rotate(old_token, token.clone()) {
            Some(u) => Some((u, token)),
            None => None,
        }
    }

    /// Closes session `token`.
    pub fn end(&mut self, token: &str)
        ensures
            final(self)@ == old(self)@.remove(token@),
    {
        proof {
            crate::document::lemma_map_values_remove(self.tokens@, token@, |s: String| s@);
        }
        self.tokens.remove(token);
    }

    /// Replaces session `old_token` by `new_token` for the same account, and
    /// hands back the account; leaves the sessions unchanged when `old_token`
    /// is not open.
    pub fn rotate(&mut self, old_token: &str, new_token: String) -> (r: Option<String>)
        ensures
            r is Some == old(self)@.contains_key(old_token@),
            match r {
                Some(u) => u@ == old(self)@[old_token@] && final(self)@ == rotated(old(self)@, old_token@, new_token@),
                None => final(self)@ == old(self)@,
            },
    {
        match self.tokens.remove(old_token) {
            Some(u) => {
                let r = u.clone();
                proof {
                    crate::document::lemma_map_values_remove(old(self).tokens@, old_token@, |s: String| s@);
                    crate::document::lemma_map_values_insert(self.tokens@, new_token@, u, |s: String| s@);
                }
                self.tokens.insert(new_token, u);
                Some(r)
            },
            None => {
                proof {
                    assert(old(self).tokens@.remove(old_token@) =~= old(self).tokens@);
                }
                None
            },
        }
    }
}

} // verus!
