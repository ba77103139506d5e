//! API key authentication: which role a request needs and which role a key has.

use vstd::prelude::*;
use crate::text;
use crate::text::{
    char_count, decimal_text, has_prefix, same_text, split_at_char, text3, text4, text_from,
    trimmed,
};

verus! {

/// What a key allows. A role includes those before it.
#[derive(Debug, Clone, Copy, PartialEq, Eq, PartialOrd, Ord, Hash, Structural)]
pub enum KeyRole {
    Search,
    Read,
    Admin,
}

impl KeyRole {
    /// How much the role allows.
    pub open spec fn level(self) -> int {
        match self {
            KeyRole::Search => 1,
            KeyRole::Read => 2,
            KeyRole::Admin => 3,
        }
    }

    fn number(self) -> (r: u8)
        ensures
            r == self.level(),
    {
        match self {
            KeyRole::Search => 1,
            KeyRole::Read => 2,
            KeyRole::Admin => 3,
        }
    }

    /// Whether the role allows all that another does.
    pub fn covers(self, needed: KeyRole) -> (r: bool)
        ensures
            r == (self.level() >= needed.level()),
    {
        self.number() >= needed.number()
    }
}

/// The keys of the API and their roles.
#[derive(Debug, PartialEq, Eq)]
pub struct ApiKeyAuthConfig {
    pub need_auth: bool,
    pub key_roles: Vec<(String, KeyRole)>,
}

/// The higher of a role and another one, if there is one.
pub open spec fn higher(role: KeyRole, other: Option<KeyRole>) -> KeyRole {
    match other {
        Some(o) => if o.level() >= role.level() {
            o
        } else {
            role
        },
        None => role,
    }
}

/// The highest role that the settings give to a key. White space around a
/// setting does not count.
pub open spec fn granted(settings: Seq<(String, KeyRole)>, key: Seq<char>) -> Option<KeyRole>
    decreases settings.len(),
{
    if settings.len() == 0 {
        None
    } else {
        let rest = granted(settings.drop_last(), key);
        if text::trim(settings.last().0@) == key && key.len() > 0 {
            Some(higher(settings.last().1, rest))
        } else {
            rest
        }
    }
}

/// The role of a key in a table.
pub open spec fn role_in(table: Seq<(String, KeyRole)>, key: Seq<char>) -> Option<KeyRole>
    decreases table.len(),
{
    if table.len() == 0 {
        None
    } else if table[0].0@ == key {
        Some(table[0].1)
    } else {
        role_in(table.drop_first(), key)
    }
}

/// Whether no two entries of a table have the same key.
pub open spec fn keys_distinct(table: Seq<(String, KeyRole)>) -> bool {
    forall|i: int, j: int|
        #![trigger table[i], table[j]]
        0 <= i < j < table.len() ==> table[i].0@ != table[j].0@
}

proof fn lemma_role_at(table: Seq<(String, KeyRole)>, i: int)
    requires
        0 <= i < table.len(),
        forall|k: int| 0 <= k < i ==> (#[trigger] table[k]).0@ != table[i].0@,
    ensures
        role_in(table, table[i].0@) == Some(table[i].1),
    decreases i,
{
    if i > 0 {
        assert(table[0].0@ != table[i].0@);
        let rest = table.drop_first();
        assert(rest[i - 1] == table[i]);
        assert forall|k: int| 0 <= k < i - 1 implies (#[trigger] rest[k]).0@ != rest[i - 1].0@ by {
            assert(table[k + 1].0@ != table[i].0@);
        }
        lemma_role_at(rest, i - 1);
    }
}

proof fn lemma_no_role(table: Seq<(String, KeyRole)>, key: Seq<char>)
    requires
        forall|i: int| 0 <= i < table.len() ==> (#[trigger] table[i]).0@ != key,
    ensures
        role_in(table, key) is None,
    decreases table.len(),
{
    if table.len() > 0 {
        assert(table[0].0@ != key);
        let rest = table.drop_first();
        assert forall|i: int| 0 <= i < rest.len() implies (#[trigger] rest[i]).0@ != key by {
            assert(table[i + 1].0@ != key);
        }
        lemma_no_role(rest, key);
    }
}

fn find_key(table: &Vec<(String, KeyRole)>, key: &str) -> (r: usize)
    ensures
        r <= table@.len(),
        forall|k: int| 0 <= k < r ==> (#[trigger] table@[k]).0@ != key@,
        r < table@.len() ==> table@[r as int].0@ == key@,
{
    let mut i: usize = 0;
    while i < table.len()
        invariant
            i <= table@.len(),
            forall|k: int| 0 <= k < i ==> (#[trigger] table@[k]).0@ != key@,
        decreases table.len() - i,
    {
        if same_text(table[i].0.as_str(), key) {
            return i;
        }
        i += 1;
    }
    i
}

impl ApiKeyAuthConfig {
    /// The role of a key.
    pub open spec fn role_of(self, key: Seq<char>) -> Option<KeyRole> {
        role_in(self.key_roles@, key)
    }

    /// Reads the keys off the settings that are present, in order. A key that is
    /// set more than once has the highest of its roles; blank settings do not
    /// count. Without keys no authentication is needed.
    pub fn from_settings(settings: &Vec<(String, KeyRole)>) -> (r: Self)
        ensures
            keys_distinct(r.key_roles@),
            forall|key: Seq<char>| #[trigger] r.role_of(key) == granted(settings@, key),
            r.need_auth == (r.key_roles@.len() > 0),
    {
        let mut table: Vec<(String, KeyRole)> = Vec::new();
        let mut i: usize = 0;
        assert(settings@.take(0) =~= Seq::empty());
        while i < settings.len()
            invariant
                i <= settings@.len(),
                keys_distinct(table@),
                forall|key: Seq<char>| #[trigger]
                    role_in(table@, key) == granted(settings@.take(i as int), key),
            decreases settings.len() - i,
        {
            let key = trimmed(settings[i].0.as_str());
            let role = settings[i].1;
            let ghost before = table@;
            let ghost now = settings@.take(i as int + 1);
            assert(now.last() == settings@[i as int]);
            assert(now.drop_last() =~= settings@.take(i as int));
            if char_count(key.as_str()) > 0 {
                let at = find_key(&table, key.as_str());
                let ghost k = key@;
                if at < table.len() {
                    let existing = table[at].1;
                    proof {
                        lemma_role_at(before, at as int);
                    }
                    if !existing.covers(role) {
                        table.set(at, (key, role));
                    }
                    proof {
                        let after = table@;
                        assert(keys_distinct(after)) by {
                            assert forall|a: int, b: int|
                                #![trigger after[a], after[b]]
                                0 <= a < b < after.len() implies after[a].0@ != after[b].0@ by {
                                assert(before[a].0@ != before[b].0@);
                            }
                        }
                        assert forall|z: int| 0 <= z < at implies (#[trigger] after[z]).0@
                            != after[at as int].0@ by {
                            assert(before[z].0@ != k);
                        }
                        lemma_role_at(after, at as int);
                        assert forall|x: Seq<char>| #[trigger]
                            role_in(after, x) == granted(now, x) by {
                            assert(role_in(before, x) == granted(settings@.take(i as int), x));
                            if x != k {
                                lemma_same_elsewhere(before, after, at as int, x);
                            }
                        }
                    }
                } else {
                    proof {
                        lemma_no_role(before, k);
                    }
                    table.push((key, role));
                    proof {
                        let after = table@;
                        assert forall|x: Seq<char>| #[trigger]
                            role_in(after, x) == granted(now, x) by {
                            assert(role_in(before, x) == granted(settings@.take(i as int), x));
                            lemma_role_push(before, after.last(), x);
                        }
                    }
                }
            } else {
                assert forall|x: Seq<char>| #[trigger] role_in(table@, x) == granted(now, x) by {
                    assert(role_in(table@, x) == granted(settings@.take(i as int), x));
                }
            }
            i += 1;
        }
        assert(settings@.take(i as int) =~= settings@);
        let need_auth = table.len() > 0;
        ApiKeyAuthConfig { need_auth, key_roles: table }
    }

    /// The number of keys with a role.
    pub open spec fn count_of(self, role: KeyRole) -> nat {
        count_role(self.key_roles@, role)
    }

    fn count(&self, role: KeyRole) -> (r: usize)
        ensures
            r == self.count_of(role),
    {
        let mut n: usize = 0;
        let mut i: usize = 0;
        assert(self.key_roles@.take(0) =~= Seq::empty());
        while i < self.key_roles.len()
            invariant
                i <= self.key_roles@.len(),
                n <= i,
                n == count_role(self.key_roles@.take(i as int), role),
            decreases self.key_roles.len() - i,
        {
            assert(self.key_roles@.take(i as int + 1).last() == self.key_roles@[i as int]);
            assert(self.key_roles@.take(i as int + 1).drop_last() =~= self.key_roles@.take(
                i as int,
            ));
            if self.key_roles[i].1 == role {
                n += 1;
            }
            i += 1;
        }
        assert(self.key_roles@.take(i as int) =~= self.key_roles@);
        n
    }

    /// What is logged at startup.
    pub open spec fn startup_text(self) -> Seq<char> {
        if !self.need_auth {
            "API key auth disabled (no AMGIX_*_KEY env vars set)"@
        } else {
            "API key auth enabled ("@ + text::decimal(self.key_roles@.len()) + " key(s): "@
                + text::decimal(self.count_of(KeyRole::Admin)) + (" admin, "@ + text::decimal(
                self.count_of(KeyRole::Read),
            ) + " read, "@ + text::decimal(self.count_of(KeyRole::Search))) + " search)"@
        }
    }

    /// The line to log at startup.
    pub fn log_startup(&self) -> (r: String)
        ensures
            r@ == self.startup_text(),
    {
        if !self.need_auth {
            return "API key auth disabled (no AMGIX_*_KEY env vars set)".to_owned();
        }
        let all = decimal_text(self.key_roles.len() as u64);
        let admin = decimal_text(self.count(KeyRole::Admin) as u64);
        let read = decimal_text(self.count(KeyRole::Read) as u64);
        let search = decimal_text(self.count(KeyRole::Search) as u64);
        let head = text4("API key auth enabled (", all.as_str(), " key(s): ", admin.as_str());
        let tail = text4(" admin, ", read.as_str(), " read, ", search.as_str());
        text3(head.as_str(), tail.as_str(), " search)")
    }

    /// Whether a request with a key, if it has one, is let through.
    pub open spec fn allows(
        self,
        method: Seq<char>,
        path: Seq<char>,
        key: Option<Seq<char>>,
    ) -> bool {
        ||| !self.need_auth
        ||| needed_role(method, path) is None
        ||| {
            &&& key is Some
            &&& self.role_of(key->0) is Some
            &&& self.role_of(key->0)->0.level() >= needed_role(method, path)->0.level()
        }
    }

    /// Decides on a request; one that is not let through gets the details.
    pub fn authorize(&self, method: &str, path: &str, key: &Option<String>) -> (r: Result<
        (),
        String,
    >)
        ensures
            match r {
                Ok(_) => self.allows(method@, path@, text::opt_view(*key)),
                Err(e) => !self.allows(method@, path@, text::opt_view(*key)) && (needed_role(
                    method@,
                    path@,
                ) matches Some(needed) && e@ == failed_detail(needed)),
            },
    {
        if !self.need_auth {
            return Ok(());
        }
        let needed = match required_role(method, path) {
            Some(needed) => needed,
            None => {
                return Ok(());
            },
        };
        if let Some(k) = key {
            let at = find_key(&self.key_roles, k.as_str());
            if at < self.key_roles.len() {
                proof {
                    lemma_role_at(self.key_roles@, at as int);
                }
                if self.key_roles[at].1.covers(needed) {
                    return Ok(());
                }
            } else {
                proof {
                    lemma_no_role(self.key_roles@, k@);
                }
            }
        }
        Err(authentication_failed_detail(needed))
    }
}

/// The number of entries with a role.
pub open spec fn count_role(table: Seq<(String, KeyRole)>, role: KeyRole) -> nat
    decreases table.len(),
{
    if table.len() == 0 {
        0
    } else {
        count_role(table.drop_last(), role) + if table.last().1 == role {
            1nat
        } else {
            0nat
        }
    }
}

proof fn lemma_same_elsewhere(
    before: Seq<(String, KeyRole)>,
    after: Seq<(String, KeyRole)>,
    at: int,
    x: Seq<char>,
)
    requires
        before.len() == after.len(),
        0 <= at < before.len(),
        before[at].0@ == after[at].0@,
        before[at].0@ != x,
        forall|i: int| 0 <= i < before.len() && i != at ==> before[i] == after[i],
    ensures
        role_in(before, x) == role_in(after, x),
    decreases before.len(),
{
    if before[0].0@ != x {
        let b = before.drop_first();
        let a = after.drop_first();
        if at > 0 {
            assert(before[0] == after[0]);
            assert forall|i: int| 0 <= i < b.len() && i != at - 1 implies b[i] == a[i] by {
                assert(before[i + 1] == after[i + 1]);
            }
            lemma_same_elsewhere(b, a, at - 1, x);
        } else {
            assert(b =~= a) by {
                assert forall|i: int| 0 <= i < b.len() implies b[i] == a[i] by {
                    assert(before[i + 1] == after[i + 1]);
                }
            }
        }
    } else {
        assert(at != 0);
        assert(before[0] == after[0]);
    }
}

proof fn lemma_role_push(table: Seq<(String, KeyRole)>, e: (String, KeyRole), x: Seq<char>)
    ensures
        role_in(table.push(e), x) == (if role_in(table, x) is Some {
            role_in(table, x)
        } else if e.0@ == x {
            Some(e.1)
        } else {
            None
        }),
    decreases table.len(),
{
    let p = table.push(e);
    if table.len() == 0 {
        assert(p[0] == e);
        assert(p.drop_first() =~= Seq::empty());
        assert(role_in(p.drop_first(), x) is None);
    } else {
        assert(p[0] == table[0]);
        assert(p.drop_first() =~= table.drop_first().push(e));
        lemma_role_push(table.drop_first(), e, x);
    }
}

/// The text of a header, where the header is there: none if it is not text.
pub open spec fn header_key(text_of: Option<String>) -> Option<Seq<char>> {
    match text_of {
        Some(raw) => if text::trim(raw@).len() == 0 {
            None
        } else {
            Some(text::trim(raw@))
        },
        None => None,
    }
}

/// The key in an `Authorization` header, with or without `Bearer`.
pub open spec fn bearer_key(text_of: Option<String>) -> Option<Seq<char>> {
    match text_of {
        Some(raw) => {
            let token = if "Bearer "@.is_prefix_of(raw@) {
                raw@.skip("Bearer "@.len() as int)
            } else {
                raw@
            };
            if text::trim(token).len() == 0 {
                None
            } else {
                Some(text::trim(token))
            }
        },
        None => None,
    }
}

/// The key that a request presents: in its `api-key` header if it has one, or
/// else in its `Authorization` header.
pub open spec fn presented_key(
    api_key: Option<Option<String>>,
    authorization: Option<Option<String>>,
) -> Option<Seq<char>> {
    match api_key {
        Some(text_of) => header_key(text_of),
        None => match authorization {
            Some(text_of) => bearer_key(text_of),
            None => None,
        },
    }
}

fn non_blank(s: &str) -> (r: Option<String>)
    ensures
        text::opt_view(r) == (if text::trim(s@).len() == 0 {
            None
        } else {
            Some(text::trim(s@))
        }),
{
    let t = trimmed(s);
    if char_count(t.as_str()) == 0 {
        None
    } else {
        Some(t)
    }
}

/// The key that a request presents. A header is given as its text, if it is
/// there and its value is text.
pub fn extract_api_key(
    api_key: &Option<Option<String>>,
    authorization: &Option<Option<String>>,
) -> (r: Option<String>)
    ensures
        text::opt_view(r) == presented_key(*api_key, *authorization),
{
    if let Some(text_of) = api_key {
        return match text_of {
            Some(raw) => non_blank(raw.as_str()),
            None => None,
        };
    }
    match authorization {
        Some(Some(raw)) => if has_prefix(raw.as_str(), "Bearer ") {
            let token = text_from(raw.as_str(), char_count("Bearer "));
            non_blank(token.as_str())
        } else {
            non_blank(raw.as_str())
        },
        _ => None,
    }
}

/// The name of a role.
pub open spec fn label_of(role: KeyRole) -> Seq<char> {
    match role {
        KeyRole::Search => "search"@,
        KeyRole::Read => "read"@,
        KeyRole::Admin => "admin"@,
    }
}

fn role_label(role: KeyRole) -> (r: &'static str)
    ensures
        r@ == label_of(role),
{
    match role {
        KeyRole::Search => "search",
        KeyRole::Read => "read",
        KeyRole::Admin => "admin",
    }
}

/// A role with its article.
pub open spec fn phrase_of(role: KeyRole) -> Seq<char> {
    (if role is Admin {
        "an"@
    } else {
        "a"@
    }) + " "@ + label_of(role)
}

/// A role with its article.
pub fn role_phrase(role: KeyRole) -> (r: String)
    ensures
        r@ == phrase_of(role),
{
    let article = if matches!(role, KeyRole::Admin) {
        "an"
    } else {
        "a"
    };
    text3(article, " ", role_label(role))
}

/// What a request without sufficient key is told.
pub open spec fn failed_detail(needed: KeyRole) -> Seq<char> {
    "Authentication failed. This endpoint requires at least "@ + phrase_of(needed)
        + " API key. Pass it via the `api-key` header or `Authorization: Bearer <key>`."@
}

/// What a request without sufficient key is told.
pub fn authentication_failed_detail(needed: KeyRole) -> (r: String)
    ensures
        r@ == failed_detail(needed),
{
    let phrase = role_phrase(needed);
    text3(
        "Authentication failed. This endpoint requires at least ",
        phrase.as_str(),
        " API key. Pass it via the `api-key` header or `Authorization: Bearer <key>`.",
    )
}

/// The parts of a path between its slashes that are not empty.
pub open spec fn path_parts(pieces: Seq<Seq<char>>) -> Seq<Seq<char>>
    decreases pieces.len(),
{
    if pieces.len() == 0 {
        Seq::empty()
    } else {
        let rest = path_parts(pieces.drop_last());
        if pieces.last().len() == 0 {
            rest
        } else {
            rest.push(pieces.last())
        }
    }
}

fn collect_parts(path: &str) -> (r: Vec<String>)
    ensures
        text::views(r@) == path_parts(text::split(path@, '/')),
{
    let pieces = split_at_char(path, '/');
    let ghost all = text::views(pieces@);
    let mut out: Vec<String> = Vec::new();
    let mut i: usize = 0;
    assert(all.take(0) =~= Seq::empty());
    assert(text::views(out@) =~= Seq::empty());
    while i < pieces.len()
        invariant
            i <= pieces@.len(),
            all == text::views(pieces@),
            text::views(out@) == path_parts(all.take(i as int)),
        decreases pieces.len() - i,
    {
        assert(all.take(i as int + 1).last() == pieces@[i as int]@);
        assert(all.take(i as int + 1).drop_last() =~= all.take(i as int));
        if char_count(pieces[i].as_str()) > 0 {
            let ghost before = text::views(out@);
            out.push(pieces[i].as_str().to_owned());
            assert(text::views(out@) =~= before.push(pieces@[i as int]@));
        }
        i += 1;
    }
    assert(all.take(i as int) =~= all);
    out
}

/// Whether a path is open to everyone who reads it.
pub open spec fn is_public_path(path: Seq<char>) -> bool {
    path == "/v1/version"@ || path == "/v1/health/check"@ || path == "/v1/health/ready"@
}

/// Whether the parts are those of a search.
pub open spec fn is_search_path(parts: Seq<Seq<char>>) -> bool {
    parts.len() >= 4 && parts[1] == "collections"@ && parts.last() == "search"@
}

/// Whether a request changes a collection or its documents.
pub open spec fn is_admin_route(method: Seq<char>, parts: Seq<Seq<char>>) -> bool {
    &&& parts.len() >= 2
    &&& parts[1] == "collections"@
    &&& if method == "DELETE"@ {
        parts.len() == 3 || parts.contains("documents"@) || parts.last() == "queue"@
    } else {
        method == "POST"@ && {
            ||| parts.len() == 3
            ||| parts.last() == "empty"@
            ||| parts.last() == "bulk"@
            ||| parts.len() >= 5 && parts[parts.len() - 2] == "documents"@ && parts.last()
                == "sync"@
            ||| parts.len() == 4 && parts.last() == "documents"@
        }
    }
}

/// The role that a request needs, if it needs one.
pub open spec fn needed_role(method: Seq<char>, path: Seq<char>) -> Option<KeyRole> {
    let parts = path_parts(text::split(path, '/'));
    if !"/v1"@.is_prefix_of(path) {
        None
    } else if method == "GET"@ && is_public_path(path) {
        None
    } else if parts.len() < 2 || parts[0] != "v1"@ {
        None
    } else if method == "POST"@ && is_search_path(parts) {
        Some(KeyRole::Search)
    } else if is_admin_route(method, parts) {
        Some(KeyRole::Admin)
    } else {
        Some(KeyRole::Read)
    }
}

fn part_is(parts: &Vec<String>, i: usize, t: &str) -> (r: bool)
    requires
        i < parts@.len(),
    ensures
        r == (text::views(parts@)[i as int] == t@),
{
    same_text(parts[i].as_str(), t)
}

fn admin_route(method: &str, parts: &Vec<String>) -> (r: bool)
    ensures
        r == is_admin_route(method@, text::views(parts@)),
{
    let ghost views = text::views(parts@);
    let n: usize = parts.len();
    assert(views.len() == n);
    if n < 2 || !part_is(parts, 1, "collections") {
        return false;
    }
    assert(views.last() == views[n - 1]);
    if same_text(method, "DELETE") {
        return n == 3 || text::text_in(parts, "documents") || part_is(parts, n - 1, "queue");
    }
    if !same_text(method, "POST") {
        return false;
    }
    n == 3 || part_is(parts, n - 1, "empty") || part_is(parts, n - 1, "bulk") || (n >= 5
        && part_is(parts, n - 2, "documents") && part_is(parts, n - 1, "sync")) || (n == 4
        && part_is(parts, n - 1, "documents"))
}

/// The role that a request needs, if it needs one.
pub fn required_role(method: &str, path: &str) -> (r: Option<KeyRole>)
    ensures
        r == needed_role(method@, path@),
{
    if !has_prefix(path, "/v1") {
        return None;
    }
    if same_text(method, "GET") && (same_text(path, "/v1/version") || same_text(
        path,
        "/v1/health/check",
    ) || same_text(path, "/v1/health/ready")) {
        return None;
    }
    let parts = collect_parts(path);
    let n: usize = parts.len();
    let ghost views = text::views(parts@);
    assert(views.len() == n);
    if n < 2 || !part_is(&parts, 0, "v1") {
        return None;
    }
    assert(views.last() == views[n - 1]);
    if same_text(method, "POST") && n >= 4 && part_is(&parts, 1, "collections") && part_is(
        &parts,
        n - 1,
        "search",
    ) {
        return Some(KeyRole::Search);
    }
    if admin_route(method, &parts) {
        return Some(KeyRole::Admin);
    }
    Some(KeyRole::Read)
}

/// A key with a higher role is let through wherever one with a lower role is.
pub proof fn higher_roles_include_lower(
    auth: ApiKeyAuthConfig,
    method: Seq<char>,
    path: Seq<char>,
    lower: Seq<char>,
    upper: Seq<char>,
)
    requires
        auth.allows(method, path, Some(lower)),
        auth.role_of(lower) is Some,
        auth.role_of(upper) is Some,
        auth.role_of(upper)->0.level() >= auth.role_of(lower)->0.level(),
    ensures
        auth.allows(method, path, Some(upper)),
{
}

/// Where keys are set, a request that needs a role is never let through
/// without a key that has one.
pub proof fn unknown_keys_are_refused(
    auth: ApiKeyAuthConfig,
    method: Seq<char>,
    path: Seq<char>,
    key: Option<Seq<char>>,
)
    requires
        auth.need_auth,
        needed_role(method, path) is Some,
        key is None || auth.role_of(key->0) is None,
    ensures
        !auth.allows(method, path, key),
{
}

/// The role of a key does not depend on the order of the settings: it is at
/// least that of every setting of the key.
pub proof fn settings_keep_the_highest_role(
    settings: Seq<(String, KeyRole)>,
    key: Seq<char>,
    i: int,
)
    requires
        0 <= i < settings.len(),
        text::trim(settings[i].0@) == key,
        key.len() > 0,
    ensures
        granted(settings, key) is Some,
        granted(settings, key)->0.level() >= settings[i].1.level(),
    decreases settings.len(),
{
    if i < settings.len() - 1 {
        settings_keep_the_highest_role(settings.drop_last(), key, i);
    }
}

/// A key of administration opens everything, one for reading what reading and
/// searching need, and one for searching what searching needs.
pub proof fn keys_open_what_their_role_covers(
    auth: ApiKeyAuthConfig,
    method: Seq<char>,
    path: Seq<char>,
    key: Seq<char>,
)
    requires
        auth.need_auth,
        auth.role_of(key) is Some,
        needed_role(method, path) is Some,
    ensures
        auth.allows(method, path, Some(key)) <==> match (
            auth.role_of(key)->0,
            needed_role(method, path)->0,
        ) {
            (KeyRole::Admin, _) => true,
            (KeyRole::Read, needed) => !(needed is Admin),
            (KeyRole::Search, needed) => needed is Search,
        },
{
}

/// Everything is open where no key is set, and what needs no role is open to all.
pub proof fn open_paths_need_no_key(
    auth: ApiKeyAuthConfig,
    method: Seq<char>,
    path: Seq<char>,
    key: Option<Seq<char>>,
)
    requires
        !auth.need_auth || needed_role(method, path) is None,
    ensures
        auth.allows(method, path, key),
{
}

/// The role of a key is one that the settings give it, with white space around it
/// left out; a key that is not set has none.
pub proof fn roles_come_from_the_settings(settings: Seq<(String, KeyRole)>, key: Seq<char>)
    ensures
        granted(settings, key) matches Some(r) ==> exists|i: int|
            0 <= i < settings.len() && text::trim((#[trigger] settings[i]).0@) == key
                && settings[i].1 == r,
        (forall|i: int|
            0 <= i < settings.len() ==> text::trim((#[trigger] settings[i]).0@) != key)
            ==> granted(settings, key) is None,
        granted(settings, Seq::empty()) is None,
    decreases settings.len(),
{
    if settings.len() > 0 {
        let init = settings.drop_last();
        roles_come_from_the_settings(init, key);
        assert(forall|i: int| 0 <= i < init.len() ==> #[trigger] init[i] == settings[i]);
        let last = settings.len() - 1;
        if granted(settings, key) is Some {
            let r = granted(settings, key)->0;
            if granted(init, key) == Some(r) {
                let i = choose|i: int|
                    0 <= i < init.len() && text::trim((#[trigger] init[i]).0@) == key && init[i].1
                        == r;
                assert(settings[i].1 == r);
            } else {
                assert(text::trim(settings[last].0@) == key && settings[last].1 == r);
            }
        }
        if forall|i: int|
            0 <= i < settings.len() ==> text::trim((#[trigger] settings[i]).0@) != key {
            assert(text::trim(settings[last].0@) != key);
        }
    }
}

/// The key of a request is that of its own header, or else that of the
/// authorization with the word before it left out. White space around a key is
/// left out, and a blank one is none.
pub proof fn keys_are_read_from_the_headers(
    own: String,
    authorization: Option<Option<String>>,
    token: String,
    bearer: String,
)
    requires
        bearer@ == "Bearer "@ + token@,
        !"Bearer "@.is_prefix_of(token@),
    ensures
        text::trim(own@).len() > 0 ==> presented_key(Some(Some(own)), authorization) == Some(
            text::trim(own@),
        ),
        text::trim(own@).len() == 0 ==> presented_key(Some(Some(own)), authorization) is None,
        presented_key(None, None) is None,
        text::trim(token@).len() > 0 ==> presented_key(None, Some(Some(bearer))) == Some(
            text::trim(token@),
        ) && presented_key(None, Some(Some(token))) == Some(text::trim(token@)),
        text::trim(token@).len() == 0 ==> presented_key(None, Some(Some(bearer))) is None,
{
    assert(bearer@.skip("Bearer "@.len() as int) =~= token@);
}

proof fn lemma_path_parts(pieces: Seq<Seq<char>>)
    requires
        forall|i: int| 0 <= i < pieces.len() ==> (#[trigger] pieces[i]).len() > 0,
    ensures
        path_parts(seq![Seq::<char>::empty()] + pieces) == pieces,
    decreases pieces.len(),
{
    let all = seq![Seq::<char>::empty()] + pieces;
    if pieces.len() == 0 {
        assert(all.len() == 1);
        assert(all.last().len() == 0);
        assert(all.drop_last() =~= Seq::empty());
        assert(path_parts(all.drop_last()) =~= Seq::empty());
        assert(path_parts(all) =~= pieces);
    } else {
        let init = pieces.drop_last();
        lemma_path_parts(init);
        assert(all.drop_last() =~= seq![Seq::<char>::empty()] + init);
        assert(all.last() == pieces[pieces.len() - 1]);
        assert(init.push(pieces.last()) =~= pieces);
    }
}

/// The path of the parts of a versioned address.
pub open spec fn versioned(rest: Seq<Seq<char>>) -> Seq<char> {
    text::preceded(seq!["v1"@] + rest, '/')
}

/// Whether texts can be the parts of a path.
pub open spec fn are_parts(parts: Seq<Seq<char>>) -> bool {
    forall|i: int|
        0 <= i < parts.len() ==> (#[trigger] parts[i]).len() > 0 && !parts[i].contains('/')
}

proof fn lemma_versioned(rest: Seq<Seq<char>>)
    requires
        are_parts(rest),
    ensures
        path_parts(text::split(versioned(rest), '/')) == seq!["v1"@] + rest,
        "/v1"@.is_prefix_of(versioned(rest)),
{
    reveal_strlit("v1");
    reveal_strlit("/v1");
    let parts = seq!["v1"@] + rest;
    assert forall|i: int| 0 <= i < parts.len() implies (#[trigger] parts[i]).len() > 0
        && !parts[i].contains('/') by {
        if i > 0 {
            assert(parts[i] == rest[i - 1]);
        }
    }
    text::split_takes_apart(parts, '/');
    lemma_path_parts(parts);
    let s = versioned(rest);
    assert(s =~= seq!['/'] + "v1"@ + text::preceded(parts.drop_first(), '/'));
    assert("/v1"@ =~= s.take(3));
}

proof fn lemma_words()
    ensures
        "GET"@ != "POST"@,
        "GET"@ != "DELETE"@,
        "POST"@ != "DELETE"@,
        "search"@ != "empty"@,
        "search"@ != "bulk"@,
        "search"@ != "sync"@,
        "search"@ != "documents"@,
        "search"@ != "queue"@,
        "search"@ != "fetch"@,
        "empty"@ != "fetch"@,
        "bulk"@ != "fetch"@,
        "sync"@ != "fetch"@,
        "documents"@ != "fetch"@,
        are_parts(
            seq![
                "collections"@,
                "search"@,
                "empty"@,
                "documents"@,
                "bulk"@,
                "sync"@,
                "queue"@,
                "fetch"@,
            ],
        ),
{
    reveal_strlit("GET");
    reveal_strlit("POST");
    reveal_strlit("DELETE");
    reveal_strlit("collections");
    reveal_strlit("search");
    reveal_strlit("empty");
    reveal_strlit("documents");
    reveal_strlit("bulk");
    reveal_strlit("sync");
    reveal_strlit("queue");
    reveal_strlit("fetch");
    assert("GET"@.len() == 3 && "POST"@.len() == 4 && "DELETE"@.len() == 6);
    assert("search"@.len() == 6 && "bulk"@.len() == 4 && "sync"@.len() == 4 && "documents"@.len()
        == 9 && "queue"@.len() == 5 && "empty"@.len() == 5 && "fetch"@.len() == 5);
    assert("empty"@[0] != "fetch"@[0]);
}

proof fn lemma_are_parts(words: Seq<Seq<char>>, parts: Seq<Seq<char>>, own: Seq<char>, id: Seq<char>)
    requires
        are_parts(words),
        own.len() > 0,
        !own.contains('/'),
        id.len() > 0,
        !id.contains('/'),
        forall|i: int|
            0 <= i < parts.len() ==> words.contains(#[trigger] parts[i]) || parts[i] == own
                || parts[i] == id,
    ensures
        are_parts(parts),
{
    assert forall|i: int| 0 <= i < parts.len() implies (#[trigger] parts[i]).len() > 0
        && !parts[i].contains('/') by {
        if words.contains(parts[i]) {
            let k = choose|k: int| 0 <= k < words.len() && words[k] == parts[i];
        }
    }
}

/// What the paths of a collection need, whatever its name and the id of a
/// document: a search needs a key for searching; to create, empty or delete the
/// collection, to add or delete documents and to clear the queue takes one of
/// administration; everything else takes one for reading.
pub proof fn collection_paths_need_their_roles(name: Seq<char>, id: Seq<char>)
    requires
        name.len() > 0,
        !name.contains('/'),
        id.len() > 0,
        !id.contains('/'),
    ensures
        ({
            let c = "collections"@;
            let d = "documents"@;
            let own = versioned(seq![c, name]);
            &&& needed_role("POST"@, versioned(seq![c, name, "search"@])) == Some(KeyRole::Search)
            &&& needed_role("POST"@, own) == Some(KeyRole::Admin)
            &&& needed_role("DELETE"@, own) == Some(KeyRole::Admin)
            &&& needed_role("GET"@, own) == Some(KeyRole::Read)
            &&& needed_role("POST"@, versioned(seq![c, name, "empty"@])) == Some(KeyRole::Admin)
            &&& needed_role("POST"@, versioned(seq![c, name, d])) == Some(KeyRole::Admin)
            &&& needed_role("POST"@, versioned(seq![c, name, d, "bulk"@])) == Some(KeyRole::Admin)
            &&& needed_role("POST"@, versioned(seq![c, name, d, "sync"@])) == Some(KeyRole::Admin)
            &&& needed_role("POST"@, versioned(seq![c, name, d, "fetch"@])) == Some(KeyRole::Read)
            &&& needed_role("GET"@, versioned(seq![c, name, d, id])) == Some(KeyRole::Read)
            &&& needed_role("DELETE"@, versioned(seq![c, name, d, id])) == Some(KeyRole::Admin)
            &&& needed_role("DELETE"@, versioned(seq![c, name, d, id, "sync"@])) == Some(
                KeyRole::Admin,
            )
            &&& needed_role("DELETE"@, versioned(seq![c, name, "queue"@])) == Some(KeyRole::Admin)
        }),
{
    lemma_words();
    let words = seq![
        "collections"@,
        "search"@,
        "empty"@,
        "documents"@,
        "bulk"@,
        "sync"@,
        "queue"@,
        "fetch"@,
    ];
    let c = "collections"@;
    let d = "documents"@;
    assert(words[0] == c && words[1] == "search"@ && words[2] == "empty"@ && words[3] == d
        && words[4] == "bulk"@ && words[5] == "sync"@ && words[6] == "queue"@ && words[7]
        == "fetch"@);
    lemma_one_path(words, name, id, seq![c, name]);
    lemma_one_path(words, name, id, seq![c, name, "search"@]);
    lemma_one_path(words, name, id, seq![c, name, "empty"@]);
    lemma_one_path(words, name, id, seq![c, name, d]);
    lemma_one_path(words, name, id, seq![c, name, d, "bulk"@]);
    lemma_one_path(words, name, id, seq![c, name, d, "sync"@]);
    lemma_one_path(words, name, id, seq![c, name, d, "fetch"@]);
    lemma_one_path(words, name, id, seq![c, name, d, id]);
    lemma_one_path(words, name, id, seq![c, name, d, id, "sync"@]);
    lemma_one_path(words, name, id, seq![c, name, "queue"@]);
    let v = "v1"@;
    assert((seq![v] + seq![c, name, d, id])[3] == d);
    assert((seq![v] + seq![c, name, d, id]).contains(d));
    assert((seq![v] + seq![c, name, d, id, "sync"@])[3] == d);
    assert((seq![v] + seq![c, name, d, id, "sync"@]).contains(d));
    lemma_not_public(seq![c, name]);
    lemma_not_public(seq![c, name, d, id]);
}

proof fn lemma_one_path(
    words: Seq<Seq<char>>,
    name: Seq<char>,
    id: Seq<char>,
    rest: Seq<Seq<char>>,
)
    requires
        are_parts(words),
        name.len() > 0,
        !name.contains('/'),
        id.len() > 0,
        !id.contains('/'),
        forall|i: int|
            0 <= i < rest.len() ==> words.contains(#[trigger] rest[i]) || rest[i] == name
                || rest[i] == id,
    ensures
        path_parts(text::split(versioned(rest), '/')) == seq!["v1"@] + rest,
        "/v1"@.is_prefix_of(versioned(rest)),
{
    lemma_are_parts(words, rest, name, id);
    lemma_versioned(rest);
}

proof fn lemma_not_public(rest: Seq<Seq<char>>)
    requires
        rest.len() > 0,
        rest[0] == "collections"@,
    ensures
        !is_public_path(versioned(rest)),
{
    reveal_strlit("v1");
    reveal_strlit("collections");
    reveal_strlit("/v1/version");
    reveal_strlit("/v1/health/check");
    reveal_strlit("/v1/health/ready");
    let parts = seq!["v1"@] + rest;
    let s = versioned(rest);
    let tail = parts.drop_first();
    assert(tail[0] == "collections"@);
    assert(s =~= seq!['/'] + "v1"@ + text::preceded(tail, '/'));
    assert(text::preceded(tail, '/') =~= seq!['/'] + "collections"@ + text::preceded(
        tail.drop_first(),
        '/',
    ));
    assert(s[4] == 'c');
}

/// The version, the health and everything outside of the versioned addresses are
/// open.
pub proof fn public_paths_are_open(method: Seq<char>, path: Seq<char>)
    ensures
        !"/v1"@.is_prefix_of(path) ==> needed_role(method, path) is None,
        needed_role("GET"@, "/v1/version"@) is None,
        needed_role("GET"@, "/v1/health/check"@) is None,
        needed_role("GET"@, "/v1/health/ready"@) is None,
{
}

} // verus!
