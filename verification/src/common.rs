//! Names, limits and small enumerations shared by the whole crate.

use vstd::prelude::*;
use crate::text;
use crate::text::{
    ascii_lowercase, char_count, chars_of, debug_format, find_text, has_prefix, hex_text,
    same_text, text2, text3, text4, text_between, text_from, trimmed,
};

verus! {

pub const APP_NAME: &'static str = "Amalgam Index";

pub const APP_PREFIX: &'static str = "amgix";

/// Product line label for `/v1/version` and `/v1/system/info`.
pub const AMGIX_VARIANT: &'static str = "Amgix-Now";

/// Short product label of the database behind the server.
pub const DATABASE_KIND: &'static str = "Qdrant";

pub const DEFAULT_TOP_K: u32 = 128;

pub const DEFAULT_SEARCH_LIMIT: u32 = 10;

pub const DEFAULT_WMTR_WORD_WEIGHT_PERCENTAGE: u32 = 80;

pub const SEARCH_PREFETCH_MIN: u64 = 5;

/// Max sleep between database connection retries (seconds).
pub const MAX_DATABASE_WAIT_SECONDS: u64 = 30;

pub const MAX_COLLECTION_NAME_LENGTH: usize = 100;

pub const MAX_BULK_UPLOAD: usize = 100;

pub const MAX_VECTOR_NAME_LENGTH: usize = 100;

pub const MAX_MODEL_NAME_LENGTH: usize = 210;

pub const MAX_DOCUMENT_ID_LENGTH: usize = 100;

pub const MAX_DOCUMENT_NAME_LENGTH: usize = 1500;

pub const MAX_DOCUMENT_DESCRIPTION_LENGTH: usize = 3000;

pub const MAX_DOCUMENT_CONTENT_LENGTH: usize = 1_000_000;

pub const MAX_METADATA_KEY_LENGTH: usize = 100;

pub const MAX_METADATA_VALUE_LENGTH: usize = 1_000_000;

pub const MAX_INDEXED_METADATA_VALUE_LENGTH: usize = 1024;

pub const MAX_DOCUMENT_TAGS_COUNT: usize = 50;

pub const MAX_DOCUMENT_TAG_LENGTH: usize = 100;

pub const MAX_SEARCH_QUERY_LENGTH: usize = 10_000;

pub const MAX_SEARCH_LIMIT: u32 = 100;

pub const MAX_TOP_K_VALUE: u32 = 10_000;

pub const MAX_VECTOR_DIMENSIONS: u32 = 8192;

/// How many candidates are prefetched per vector for `limit` results: one and
/// a half times as many, rounded down, and never fewer than five.
pub open spec fn prefetch_limit(limit: nat) -> nat {
    if limit * 3 / 2 < 5 {
        5
    } else {
        limit * 3 / 2
    }
}

/// The number of candidates to prefetch for `limit` results.
pub fn search_prefetch_limit(limit: u32) -> (r: u64)
    ensures
        r == prefetch_limit(limit as nat),
{
    let scaled: u64 = limit as u64 * 3 / 2;
    if scaled < SEARCH_PREFETCH_MIN {
        SEARCH_PREFETCH_MIN
    } else {
        scaled
    }
}

#[derive(Debug, Clone, Copy, PartialEq, Eq, Hash, Structural)]
pub enum VectorType {
    DenseModel,
    SparseModel,
    FullText,
    Trigrams,
    Whitespace,
    Wmtr,
    /// Legacy API alias parsed as `Wmtr`; callers should use `wmtr`.
    Keyword,
    DenseCustom,
    SparseCustom,
    /// Always returns an empty sparse vector.
    Noop,
}

impl VectorType {
    /// The name of the type in configurations and messages.
    pub open spec fn spec_name(self) -> Seq<char> {
        match self {
            VectorType::DenseModel => "dense_model"@,
            VectorType::SparseModel => "sparse_model"@,
            VectorType::FullText => "full_text"@,
            VectorType::Trigrams => "trigrams"@,
            VectorType::Whitespace => "whitespace"@,
            VectorType::Wmtr => "wmtr"@,
            VectorType::Keyword => "keyword"@,
            VectorType::DenseCustom => "dense_custom"@,
            VectorType::SparseCustom => "sparse_custom"@,
            VectorType::Noop => "noop"@,
        }
    }

    pub open spec fn spec_is_dense(self) -> bool {
        self is DenseModel || self is DenseCustom
    }

    pub open spec fn spec_is_custom_tokenization(self) -> bool {
        ||| self is FullText
        ||| self is Trigrams
        ||| self is Whitespace
        ||| self is Wmtr
        ||| self is Keyword
        ||| self is Noop
    }

    pub open spec fn spec_is_transformer_based(self) -> bool {
        self is DenseModel || self is SparseModel
    }

    pub open spec fn spec_is_custom_vectors(self) -> bool {
        self is DenseCustom || self is SparseCustom
    }

    /// The type that a configuration's text names; letters count without
    /// regard to ASCII case, and `keyword` names `Wmtr`.
    pub open spec fn from_name(s: Seq<char>) -> Option<VectorType> {
        let t = text::ascii_lower(s);
        if t == "dense_model"@ {
            Some(VectorType::DenseModel)
        } else if t == "sparse_model"@ {
            Some(VectorType::SparseModel)
        } else if t == "full_text"@ {
            Some(VectorType::FullText)
        } else if t == "trigrams"@ {
            Some(VectorType::Trigrams)
        } else if t == "whitespace"@ {
            Some(VectorType::Whitespace)
        } else if t == "wmtr"@ || t == "keyword"@ {
            Some(VectorType::Wmtr)
        } else if t == "dense_custom"@ {
            Some(VectorType::DenseCustom)
        } else if t == "sparse_custom"@ {
            Some(VectorType::SparseCustom)
        } else if t == "noop"@ {
            Some(VectorType::Noop)
        } else {
            None
        }
    }

    /// Reads a vector type from a configuration's text.
    pub fn parse(s: &str) -> (r: Result<VectorType, String>)
        ensures
            match r {
                Ok(t) => Self::from_name(s@) == Some(t),
                Err(e) => Self::from_name(s@) is None && e@ == "unknown vector type: "@
                    + text::debug_text(text::ascii_lower(s@))
                    + " (expected snake_case literal, e.g. dense_model)"@,
            },
    {
        let lowered = ascii_lowercase(s);
        let t = lowered.as_str();
        if same_text(t, "dense_model") {
            Ok(VectorType::DenseModel)
        } else if same_text(t, "sparse_model") {
            Ok(VectorType::SparseModel)
        } else if same_text(t, "full_text") {
            Ok(VectorType::FullText)
        } else if same_text(t, "trigrams") {
            Ok(VectorType::Trigrams)
        } else if same_text(t, "whitespace") {
            Ok(VectorType::Whitespace)
        } else if same_text(t, "wmtr") {
            Ok(VectorType::Wmtr)
        } else if same_text(t, "keyword") {
            Ok(VectorType::Wmtr)
        } else if same_text(t, "dense_custom") {
            Ok(VectorType::DenseCustom)
        } else if same_text(t, "sparse_custom") {
            Ok(VectorType::SparseCustom)
        } else if same_text(t, "noop") {
            Ok(VectorType::Noop)
        } else {
            let shown = debug_format(t);
            Err(
                text3(
                    "unknown vector type: ",
                    shown.as_str(),
                    " (expected snake_case literal, e.g. dense_model)",
                ),
            )
        }
    }

    /// The name of the type.
    pub fn name(&self) -> (r: &'static str)
        ensures
            r@ == self.spec_name(),
    {
        match self {
            VectorType::DenseModel => "dense_model",
            VectorType::SparseModel => "sparse_model",
            VectorType::FullText => "full_text",
            VectorType::Trigrams => "trigrams",
            VectorType::Whitespace => "whitespace",
            VectorType::Wmtr => "wmtr",
            VectorType::Keyword => "keyword",
            VectorType::DenseCustom => "dense_custom",
            VectorType::SparseCustom => "sparse_custom",
            VectorType::Noop => "noop",
        }
    }

    pub fn is_dense(&self) -> (r: bool)
        ensures
            r == self.spec_is_dense(),
    {
        matches!(self, VectorType::DenseModel | VectorType::DenseCustom)
    }

    pub fn is_sparse(&self) -> (r: bool)
        ensures
            r == !self.spec_is_dense(),
    {
        !self.is_dense()
    }

    /// Types that use the crate's own tokenizers (they get the IDF modifier).
    pub fn is_custom_tokenization(&self) -> (r: bool)
        ensures
            r == self.spec_is_custom_tokenization(),
    {
        matches!(
            self,
            VectorType::FullText | VectorType::Trigrams | VectorType::Whitespace | VectorType::Wmtr
                | VectorType::Keyword | VectorType::Noop
        )
    }

    /// Types backed by transformer models.
    pub fn is_transformer_based(&self) -> (r: bool)
        ensures
            r == self.spec_is_transformer_based(),
    {
        matches!(self, VectorType::DenseModel | VectorType::SparseModel)
    }

    /// Types where the caller supplies pre-computed vectors.
    pub fn is_custom_vectors(&self) -> (r: bool)
        ensures
            r == self.spec_is_custom_vectors(),
    {
        matches!(self, VectorType::DenseCustom | VectorType::SparseCustom)
    }

    /// Types that take part in token-length bookkeeping: all that are not dense.
    pub fn sparse_types_contains(&self) -> (r: bool)
        ensures
            r == !self.spec_is_dense(),
    {
        matches!(
            self,
            VectorType::SparseModel | VectorType::FullText | VectorType::Trigrams
                | VectorType::Whitespace | VectorType::Wmtr | VectorType::Keyword
                | VectorType::SparseCustom | VectorType::Noop
        )
    }
}

/// Every vector type is exactly one of: tokenized here, backed by a
/// transformer, or supplied by the caller.
pub proof fn vector_types_are_partitioned(t: VectorType)
    ensures
        t.spec_is_custom_tokenization() <==> !t.spec_is_transformer_based()
            && !t.spec_is_custom_vectors(),
        !(t.spec_is_transformer_based() && t.spec_is_custom_vectors()),
        t.spec_is_dense() ==> !t.spec_is_custom_tokenization(),
{
}

#[derive(Debug, Clone, Copy, PartialEq, Eq, Structural)]
pub enum DenseDistance {
    Cosine,
    Dot,
    Euclid,
}

impl Default for DenseDistance {
    fn default() -> (r: Self)
        ensures
            r == DenseDistance::Cosine,
    {
        DenseDistance::Cosine
    }
}

impl DenseDistance {
    pub open spec fn spec_name(self) -> Seq<char> {
        match self {
            DenseDistance::Cosine => "cosine"@,
            DenseDistance::Dot => "dot"@,
            DenseDistance::Euclid => "euclid"@,
        }
    }

    /// The name of the distance.
    pub fn name(&self) -> (r: &'static str)
        ensures
            r@ == self.spec_name(),
    {
        match self {
            DenseDistance::Cosine => "cosine",
            DenseDistance::Dot => "dot",
            DenseDistance::Euclid => "euclid",
        }
    }
}

#[derive(Debug, Clone, Copy, PartialEq, Eq, Hash, Structural)]
pub enum DocumentField {
    Name,
    Description,
    Content,
    /// Text rendered from a vector's document template.
    Template,
}

impl DocumentField {
    pub open spec fn spec_name(self) -> Seq<char> {
        match self {
            DocumentField::Name => "name"@,
            DocumentField::Description => "description"@,
            DocumentField::Content => "content"@,
            DocumentField::Template => "template"@,
        }
    }

    /// The name of the field.
    pub fn name(&self) -> (r: &'static str)
        ensures
            r@ == self.spec_name(),
    {
        match self {
            DocumentField::Name => "name",
            DocumentField::Description => "description",
            DocumentField::Content => "content",
            DocumentField::Template => "template",
        }
    }
}

/// A field that a search can leave out of its results.
#[derive(Debug, Clone, Copy, PartialEq, Eq, Hash, Structural)]
pub enum SearchExcludeField {
    Name,
    Description,
    Tags,
    Metadata,
}

impl SearchExcludeField {
    pub open spec fn spec_name(self) -> Seq<char> {
        match self {
            SearchExcludeField::Name => "name"@,
            SearchExcludeField::Description => "description"@,
            SearchExcludeField::Tags => "tags"@,
            SearchExcludeField::Metadata => "metadata"@,
        }
    }

    /// The name of the field in a result.
    pub fn as_str(&self) -> (r: &'static str)
        ensures
            r@ == self.spec_name(),
    {
        match self {
            SearchExcludeField::Name => "name",
            SearchExcludeField::Description => "description",
            SearchExcludeField::Tags => "tags",
            SearchExcludeField::Metadata => "metadata",
        }
    }
}

/// The prefix of every collection this application owns.
pub open spec fn collection_prefix() -> Seq<char> {
    "amgix"@ + "_"@
}

/// `foo` → `amgix_foo`
pub fn get_real_collection_name(user_name: &str) -> (r: String)
    ensures
        r@ == collection_prefix() + user_name@,
{
    text3(APP_PREFIX, "_", user_name)
}

/// The user's name of a collection: its name without the application's prefix.
pub open spec fn user_collection_name(real_name: Seq<char>) -> Seq<char> {
    if collection_prefix().is_prefix_of(real_name) {
        real_name.skip(collection_prefix().len() as int)
    } else {
        real_name
    }
}

/// `amgix_foo` → `foo`
pub fn get_user_collection_name(real_name: &str) -> (r: String)
    ensures
        r@ == user_collection_name(real_name@),
{
    let prefix = text2(APP_PREFIX, "_");
    if has_prefix(real_name, prefix.as_str()) {
        let n = char_count(prefix.as_str());
        text_from(real_name, n)
    } else {
        real_name.to_owned()
    }
}

/// A user's collection name comes back from the real name made of it.
pub proof fn collection_names_round_trip(user_name: Seq<char>)
    ensures
        user_collection_name(collection_prefix() + user_name) == user_name,
{
    let full = collection_prefix() + user_name;
    assert(full.subrange(0, collection_prefix().len() as int) =~= collection_prefix());
    assert(collection_prefix().is_prefix_of(full));
    assert(full.skip(collection_prefix().len() as int) =~= user_name);
}

/// System collection name, e.g. `amgix_sys_meta`.
pub fn sys_collection_name(suffix: &str) -> (r: String)
    ensures
        r@ == "amgix"@ + "_sys_"@ + suffix@,
{
    text3(APP_PREFIX, "_sys_", suffix)
}

/// The 128 bits of `Uuid::new_v5`: the version 5 UUID of `name` (UTF-8 bytes)
/// in a namespace, a function of the two alone.
pub uninterp spec fn uuid_v5_bits(namespace: u128, name: Seq<u8>) -> u128;

/// Calls `uuid::Uuid::new_v5`; UUIDs go in and out as 128-bit numbers.
#[verifier::external_body]
fn uuid_v5(namespace: u128, name: &[u8]) -> (r: u128)
    ensures
        r == uuid_v5_bits(namespace, name@),
{
    uuid::Uuid::new_v5(&uuid::Uuid::from_u128(namespace), name).as_u128()
}

/// The DNS namespace of RFC 9562, `6ba7b810-9dad-11d1-80b4-00c04fd430c8`.
pub const NAMESPACE_DNS: u128 = 0x6ba7b810_9dad_11d1_80b4_00c04fd430c8;

/// The namespace of all document and configuration ids: the version 5 UUID of
/// the application's name among DNS names.
pub open spec fn doc_namespace_bits() -> u128 {
    uuid_v5_bits(NAMESPACE_DNS, vstd::utf8::encode_utf8("Amalgam Index"@))
}

/// The namespace of all document and configuration ids,
/// `d953b233-6472-5054-8f32-1999b057711c`.
pub fn doc_namespace() -> (r: u128)
    ensures
        r == doc_namespace_bits(),
{
    uuid_v5(NAMESPACE_DNS, APP_NAME.as_bytes())
}

/// Deterministic UUID for any string identifier (document ids, config keys).
pub fn string_to_uuid(s: &str) -> (r: u128)
    ensures
        r == uuid_v5_bits(doc_namespace_bits(), vstd::utf8::encode_utf8(s@)),
{
    uuid_v5(doc_namespace(), s.as_bytes())
}

/// A UUID in hyphenated lowercase form: 8, 4, 4, 4 and 12 hexadecimal digits.
pub open spec fn hyphenated(u: u128) -> Seq<char> {
    let high = u as nat / 0x10000000000000000;
    let low = u as nat % 0x10000000000000000;
    text::hex_fixed(high / 0x100000000, 8) + "-"@ + text::hex_fixed(high / 0x10000, 4) + "-"@ + text::hex_fixed(
        high,
        4,
    ) + "-"@ + text::hex_fixed(low / 0x1000000000000, 4) + "-"@ + text::hex_fixed(low, 12)
}

/// A UUID in hyphenated lowercase form.
pub fn uuid_text(u: u128) -> (r: String)
    ensures
        r@ == hyphenated(u),
{
    let high: u64 = (u / 0x10000000000000000) as u64;
    let low: u64 = (u % 0x10000000000000000) as u64;
    let mut s = hex_text(high / 0x100000000, 8);
    s.append("-");
    let second = hex_text(high / 0x10000, 4);
    s.append(second.as_str());
    s.append("-");
    let third = hex_text(high, 4);
    s.append(third.as_str());
    s.append("-");
    let fourth = hex_text(low / 0x1000000000000, 4);
    s.append(fourth.as_str());
    s.append("-");
    let fifth = hex_text(low, 12);
    s.append(fifth.as_str());
    s
}

/// The identifier under which a document is locked: its collection's name, a
/// hyphen and its id.
pub open spec fn doc_lock_key(collection_name: Seq<char>, document_id: Seq<char>) -> Seq<char> {
    collection_name + "-"@ + document_id
}

/// The distributed lock name of a document.
pub open spec fn doc_lock_name_text(
    collection_name: Seq<char>,
    document_id: Seq<char>,
) -> Seq<char> {
    "doc-"@ + hyphenated(
        uuid_v5_bits(
            doc_namespace_bits(),
            vstd::utf8::encode_utf8(doc_lock_key(collection_name, document_id)),
        ),
    )
}

/// Distributed per-document lock name.
pub fn doc_lock_name(collection_name: &str, document_id: &str) -> (r: String)
    ensures
        r@ == doc_lock_name_text(collection_name@, document_id@),
{
    let key = text3(collection_name, "-", document_id);
    let id = uuid_text(string_to_uuid(key.as_str()));
    text2("doc-", id.as_str())
}

/// The port of the gRPC endpoint where a connection string names none.
pub const DEFAULT_GRPC_PORT: &'static str = "6334";

/// Where the authority ends that starts at a position: before the first `/`,
/// `?` or `#`, or with the text.
pub open spec fn authority_end(url: Seq<char>, i: int) -> int
    decreases url.len() - i,
{
    if i >= url.len() || url[i] == '/' || url[i] == '?' || url[i] == '#' {
        i
    } else {
        authority_end(url, i + 1)
    }
}

/// Whether a colon stands behind the host of an authority. Colons of user
/// information, before `@`, and of an address in brackets do not count.
pub open spec fn has_port_colon(authority: Seq<char>) -> bool
    decreases authority.len(),
{
    authority.len() > 0 && authority.last() != '@' && authority.last() != ']' && (authority.last()
        == ':' || has_port_colon(authority.drop_last()))
}

/// What an authority lacks to name a port: nothing, if it names one.
pub open spec fn missing_port(authority: Seq<char>) -> Seq<char> {
    if !has_port_colon(authority) {
        ":"@ + DEFAULT_GRPC_PORT@
    } else if authority.last() == ':' {
        DEFAULT_GRPC_PORT@
    } else {
        Seq::empty()
    }
}

/// A URL, given its scheme with `://` and the rest, with the default port
/// behind its host where it names none.
pub open spec fn with_port(scheme: Seq<char>, rest: Seq<char>) -> Seq<char> {
    let end = authority_end(rest, 0);
    scheme + rest.take(end) + missing_port(rest.take(end)) + rest.skip(end)
}

/// The gRPC endpoint behind a connection string: white space around it is
/// dropped, the `qdrant` scheme or a missing scheme becomes `http`, any other
/// scheme stays, and so does a port that is given. Without one, the port is
/// 6334.
pub open spec fn client_url(connection_string: Seq<char>) -> Seq<char> {
    let s = text::trim(connection_string);
    if ("qdrant://"@).is_prefix_of(s) {
        with_port("http://"@, s.skip(("qdrant://"@).len() as int))
    } else {
        match text::first_occurrence(s, "://"@) {
            Some(i) => with_port(s.take(i + 3), s.skip(i + 3)),
            None => with_port("http://"@, s),
        }
    }
}

fn find_authority_end(url: &Vec<char>) -> (r: usize)
    ensures
        r == authority_end(url@, 0),
        r <= url@.len(),
{
    let mut i: usize = 0;
    while i < url.len() && url[i] != '/' && url[i] != '?' && url[i] != '#'
        invariant
            i <= url@.len(),
            authority_end(url@, 0) == authority_end(url@, i as int),
        decreases url.len() - i,
    {
        i += 1;
    }
    i
}

fn names_colon(url: &Vec<char>, end: usize) -> (r: bool)
    requires
        end <= url@.len(),
    ensures
        r == has_port_colon(url@.take(end as int)),
{
    let mut n: usize = end;
    while n > 0
        invariant
            n <= end <= url@.len(),
            has_port_colon(url@.take(end as int)) == has_port_colon(url@.take(n as int)),
        decreases n,
    {
        assert(url@.take(n as int).last() == url@[n - 1]);
        assert(url@.take(n as int).drop_last() =~= url@.take(n - 1));
        if url[n - 1] == '@' || url[n - 1] == ']' {
            return false;
        }
        if url[n - 1] == ':' {
            return true;
        }
        n -= 1;
    }
    false
}

fn url_with_port(scheme: &str, rest: &str) -> (r: String)
    ensures
        r@ == with_port(scheme@, rest@),
{
    let cs = chars_of(rest);
    let end = find_authority_end(&cs);
    let authority = text_between(&cs, 0, end);
    let tail = text_between(&cs, end, cs.len());
    let ghost a = rest@.take(end as int);
    assert(authority@ =~= a);
    assert(tail@ =~= rest@.skip(end as int));
    let port = if !names_colon(&cs, end) {
        text2(":", DEFAULT_GRPC_PORT)
    } else if cs[end - 1] == ':' {
        DEFAULT_GRPC_PORT.to_owned()
    } else {
        "".to_owned()
    };
    proof {
        reveal_strlit("");
        if has_port_colon(a) {
            assert(a.last() == rest@[end - 1]);
        }
        assert(port@ =~= missing_port(a));
    }
    text4(scheme, authority.as_str(), port.as_str(), tail.as_str())
}

/// The gRPC endpoint URI for a `qdrant://host:port` connection string.
pub fn qdrant_client_url(connection_string: &str) -> (r: String)
    ensures
        r@ == client_url(connection_string@),
{
    let s = trimmed(connection_string);
    if has_prefix(s.as_str(), "qdrant://") {
        let n = char_count("qdrant://");
        let rest = text_from(s.as_str(), n);
        return url_with_port("http://", rest.as_str());
    }
    proof {
        reveal_strlit("://");
    }
    match find_text(s.as_str(), "://") {
        Some(i) => {
            let cs = chars_of(s.as_str());
            let n: usize = cs.len();
            assert(i + 3 <= n);
            let scheme = text_between(&cs, 0, i + 3);
            let rest = text_between(&cs, i + 3, cs.len());
            assert(scheme@ =~= s@.take(i + 3));
            assert(rest@ =~= s@.skip(i + 3));
            url_with_port(scheme.as_str(), rest.as_str())
        },
        None => url_with_port("http://", s.as_str()),
    }
}

proof fn lemma_colon_stays(authority: Seq<char>, port: Seq<char>)
    requires
        has_port_colon(authority),
        forall|i: int| 0 <= i < port.len() ==> (#[trigger] port[i]) != '@' && port[i] != ']',
    ensures
        has_port_colon(authority + port),
    decreases port.len(),
{
    if port.len() == 0 {
        assert(authority + port =~= authority);
    } else {
        let all = authority + port;
        assert(all.last() == port[port.len() - 1]);
        assert(all.drop_last() =~= authority + port.drop_last());
        lemma_colon_stays(authority, port.drop_last());
    }
}

/// The authority of a client's URL names a port, whatever the connection string
/// names; an authority that names one is left as it is.
pub proof fn endpoints_name_a_port(authority: Seq<char>)
    ensures
        has_port_colon(authority + missing_port(authority)),
        (authority + missing_port(authority)).last() != ':',
        has_port_colon(authority) && authority.last() != ':' ==> missing_port(authority).len()
            == 0,
{
    reveal_strlit(":");
    reveal_strlit("6334");
    let port = DEFAULT_GRPC_PORT@;
    if !has_port_colon(authority) {
        assert((authority + ":"@).drop_last() =~= authority);
        lemma_colon_stays(authority + ":"@, port);
        assert(authority + (":"@ + port) =~= (authority + ":"@) + port);
    } else if authority.last() == ':' {
        lemma_colon_stays(authority, port);
    } else {
        assert(authority + missing_port(authority) =~= authority);
    }
}

proof fn lemma_authority_is_all(rest: Seq<char>, i: int)
    requires
        0 <= i <= rest.len(),
        forall|k: int|
            0 <= k < rest.len() ==> (#[trigger] rest[k]) != '/' && rest[k] != '?' && rest[k] != '#',
    ensures
        authority_end(rest, i) == rest.len(),
    decreases rest.len() - i,
{
    if i < rest.len() {
        assert(rest[i] != '/');
        lemma_authority_is_all(rest, i + 1);
    }
}

proof fn lemma_no_colon(authority: Seq<char>)
    requires
        !authority.contains(':'),
    ensures
        !has_port_colon(authority),
    decreases authority.len(),
{
    if authority.len() > 0 {
        assert(authority[authority.len() - 1] == authority.last());
        assert(!authority.drop_last().contains(':')) by {
            if authority.drop_last().contains(':') {
                let k = choose|k: int|
                    0 <= k < authority.drop_last().len() && authority.drop_last()[k] == ':';
                assert(authority[k] == ':');
            }
        }
        lemma_no_colon(authority.drop_last());
    }
}

/// A URL of nothing but a scheme and a host ends in the default port; one that
/// names a port stays as it is.
pub proof fn ports_are_completed(scheme: Seq<char>, host: Seq<char>, port: Seq<char>)
    requires
        forall|k: int|
            0 <= k < host.len() ==> (#[trigger] host[k]) != '/' && host[k] != '?' && host[k] != '#',
        port.len() > 0,
        forall|k: int| 0 <= k < port.len() ==> '0' <= #[trigger] port[k] <= '9',
    ensures
        !host.contains(':') ==> with_port(scheme, host) == scheme + host + ":6334"@,
        with_port(scheme, host + ":"@ + port) == scheme + (host + ":"@ + port),
{
    reveal_strlit(":");
    reveal_strlit("6334");
    reveal_strlit(":6334");
    lemma_authority_is_all(host, 0);
    assert(host.take(host.len() as int) =~= host);
    if !host.contains(':') {
        lemma_no_colon(host);
        assert(with_port(scheme, host) =~= scheme + host + ":6334"@);
    }
    let named = host + ":"@;
    let rest = named + port;
    assert forall|k: int| 0 <= k < rest.len() implies (#[trigger] rest[k]) != '/' && rest[k] != '?'
        && rest[k] != '#' by {
        if k < host.len() {
            assert(rest[k] == host[k]);
        } else if k > host.len() {
            assert(rest[k] == port[k - host.len() - 1]);
        }
    }
    lemma_authority_is_all(rest, 0);
    assert(rest.take(rest.len() as int) =~= rest);
    assert(named.last() == ':');
    assert(has_port_colon(named));
    assert forall|i: int| 0 <= i < port.len() implies (#[trigger] port[i]) != '@' && port[i]
        != ']' by {
        assert('0' <= port[i] <= '9');
    }
    lemma_colon_stays(named, port);
    assert(rest.last() == port[port.len() - 1]);
    assert(with_port(scheme, rest) =~= scheme + rest);
}

/// Half as many results again are fetched as are asked for, rounded down, and
/// never fewer than five.
pub proof fn half_as_many_again_are_fetched(limit: nat)
    ensures
        limit >= 4 ==> prefetch_limit(limit) == limit + limit / 2,
        limit < 4 ==> prefetch_limit(limit) == 5,
        prefetch_limit(limit) >= limit,
{
}

/// Dense are the vectors of dense models and custom dense ones; the models
/// vectorize the dense and the sparse ones; vectors of tokens are all others but
/// the custom ones.
pub proof fn vector_types_are_of_their_kinds(t: VectorType)
    ensures
        t.spec_is_dense() <==> t == VectorType::DenseModel || t == VectorType::DenseCustom,
        t.spec_is_transformer_based() <==> t == VectorType::DenseModel || t
            == VectorType::SparseModel,
        t.spec_is_custom_vectors() <==> t == VectorType::DenseCustom || t
            == VectorType::SparseCustom,
        t.spec_is_custom_tokenization() <==> t == VectorType::FullText || t == VectorType::Trigrams
            || t == VectorType::Whitespace || t == VectorType::Wmtr || t == VectorType::Keyword || t
            == VectorType::Noop,
{
}

/// The name of a vector type is read as that type, in letters of any case;
/// "keyword" is another name for the weighted type.
pub proof fn vector_types_are_read_by_name(t: VectorType, s: Seq<char>)
    requires
        text::ascii_lower(s) == t.spec_name(),
    ensures
        VectorType::from_name(s) == Some(
            if t is Keyword {
                VectorType::Wmtr
            } else {
                t
            },
        ),
{
    reveal_strlit("dense_model");
    reveal_strlit("sparse_model");
    reveal_strlit("full_text");
    reveal_strlit("trigrams");
    reveal_strlit("whitespace");
    reveal_strlit("wmtr");
    reveal_strlit("keyword");
    reveal_strlit("dense_custom");
    reveal_strlit("sparse_custom");
    reveal_strlit("noop");
    assert("wmtr"@.len() == 4 && "noop"@.len() == 4);
    assert("keyword"@.len() == 7 && "trigrams"@.len() == 8 && "full_text"@.len() == 9
        && "whitespace"@.len() == 10 && "dense_model"@.len() == 11 && "sparse_custom"@.len() == 13);
    assert("sparse_model"@.len() == 12 && "dense_custom"@.len() == 12);
    assert("wmtr"@[0] != "noop"@[0]);
    assert("sparse_model"@[0] != "dense_custom"@[0]);
}

/// A name that is no vector type's is read as none.
pub proof fn other_names_are_no_vector_types(s: Seq<char>)
    requires
        forall|t: VectorType| text::ascii_lower(s) != #[trigger] t.spec_name(),
    ensures
        VectorType::from_name(s) is None,
{
    assert(text::ascii_lower(s) != VectorType::DenseModel.spec_name());
    assert(text::ascii_lower(s) != VectorType::SparseModel.spec_name());
    assert(text::ascii_lower(s) != VectorType::FullText.spec_name());
    assert(text::ascii_lower(s) != VectorType::Trigrams.spec_name());
    assert(text::ascii_lower(s) != VectorType::Whitespace.spec_name());
    assert(text::ascii_lower(s) != VectorType::Wmtr.spec_name());
    assert(text::ascii_lower(s) != VectorType::Keyword.spec_name());
    assert(text::ascii_lower(s) != VectorType::DenseCustom.spec_name());
    assert(text::ascii_lower(s) != VectorType::SparseCustom.spec_name());
    assert(text::ascii_lower(s) != VectorType::Noop.spec_name());
}

/// The names by which types, fields and distances are known.
pub proof fn names_are_as_documented()
    ensures
        VectorType::DenseModel.spec_name() == "dense_model"@,
        VectorType::SparseModel.spec_name() == "sparse_model"@,
        VectorType::FullText.spec_name() == "full_text"@,
        VectorType::Trigrams.spec_name() == "trigrams"@,
        VectorType::Whitespace.spec_name() == "whitespace"@,
        VectorType::Wmtr.spec_name() == "wmtr"@,
        VectorType::Keyword.spec_name() == "keyword"@,
        VectorType::DenseCustom.spec_name() == "dense_custom"@,
        VectorType::SparseCustom.spec_name() == "sparse_custom"@,
        VectorType::Noop.spec_name() == "noop"@,
        DocumentField::Name.spec_name() == "name"@,
        DocumentField::Description.spec_name() == "description"@,
        DocumentField::Content.spec_name() == "content"@,
        DocumentField::Template.spec_name() == "template"@,
        SearchExcludeField::Name.spec_name() == "name"@,
        SearchExcludeField::Description.spec_name() == "description"@,
        SearchExcludeField::Tags.spec_name() == "tags"@,
        SearchExcludeField::Metadata.spec_name() == "metadata"@,
        DenseDistance::Cosine.spec_name() == "cosine"@,
        DenseDistance::Dot.spec_name() == "dot"@,
        DenseDistance::Euclid.spec_name() == "euclid"@,
{
}

/// A name that does not begin as those of the collections do is shown as it is.
pub proof fn other_names_are_shown_as_they_are(name: Seq<char>)
    ensures
        !"amgix_"@.is_prefix_of(name) ==> user_collection_name(name) == name,
        user_collection_name("amgix_"@ + name) == name,
{
    reveal_strlit("amgix_");
    reveal_strlit("amgix");
    reveal_strlit("_");
    assert("amgix"@ + "_"@ =~= "amgix_"@);
    collection_names_round_trip(name);
}

/// A document of a collection is locked under one name, whoever asks: that of its
/// collection and its id, with a hyphen in between.
pub proof fn locks_go_by_collection_and_id(
    collection: Seq<char>,
    id: Seq<char>,
    other: Seq<char>,
    other_id: Seq<char>,
)
    ensures
        collection + "-"@ + id == other + "-"@ + other_id ==> doc_lock_name_text(collection, id)
            == doc_lock_name_text(other, other_id),
        doc_lock_key(collection, id) == collection + "-"@ + id,
        "doc-"@.is_prefix_of(doc_lock_name_text(collection, id)),
{
}

proof fn lemma_hex_length(n: nat, width: nat)
    ensures
        text::hex_fixed(n, width).len() == width,
    decreases width,
{
    if width > 0 {
        lemma_hex_length(n / 16, (width - 1) as nat);
    }
}

/// The text of an identifier has eight, four, four, four and twelve digits with
/// hyphens in between: the digits of its value from the highest down.
pub proof fn identifiers_are_written_in_groups(u: u128)
    ensures
        hyphenated(u).len() == 36,
        hyphenated(u)[8] == '-',
        hyphenated(u)[13] == '-',
        hyphenated(u)[18] == '-',
        hyphenated(u)[23] == '-',
        hyphenated(u).take(8) == text::hex_fixed(u as nat / 0x1_0000_0000_0000_0000_0000_0000, 8),
        hyphenated(u).skip(24) == text::hex_fixed(u as nat % 0x1_0000_0000_0000_0000, 12),
{
    let high = u as nat / 0x10000000000000000;
    let low = u as nat % 0x10000000000000000;
    lemma_hex_length(high / 0x100000000, 8);
    lemma_hex_length(high / 0x10000, 4);
    lemma_hex_length(high, 4);
    lemma_hex_length(low / 0x1000000000000, 4);
    lemma_hex_length(low, 12);
    reveal_strlit("-");
    assert(high / 0x100000000 == u as nat / 0x1_0000_0000_0000_0000_0000_0000);
    assert(hyphenated(u).take(8) =~= text::hex_fixed(high / 0x100000000, 8));
    assert(hyphenated(u).skip(24) =~= text::hex_fixed(low, 12));
}

/// A connection string of the database's own scheme, or of none, is reached over
/// plain HTTP, at the port for calls unless it names one.
pub proof fn connections_are_made_over_http(host: Seq<char>)
    requires
        host.len() > 0,
        forall|k: int|
            0 <= k < host.len() ==> (#[trigger] host[k]) != '/' && host[k] != '?' && host[k] != '#'
                && host[k] != ':' && !text::is_white_space(host[k]),
    ensures
        client_url("qdrant://"@ + host) == "http://"@ + host + ":6334"@,
{
    reveal_strlit("qdrant://");
    let s = "qdrant://"@ + host;
    assert(text::trim_start(s) == s);
    assert(s.last() == host.last());
    assert(text::trim(s) == s);
    assert(s.skip(9) =~= host);
    assert(!host.contains(':'));
    ports_are_completed("http://"@, host, seq!['0']);
}

} // verus!
