//! One bucket of searches from its settings to its answers: which step comes
//! next, given how the last one went. The steps themselves are the caller's.

use vstd::prelude::*;
use crate::common::SearchExcludeField;
use crate::encoder;
use crate::encoder::{validate_metadata_filter, SearchError};
use crate::join_parser;
use crate::join_parser::{JoinField, JoinSpec};
use crate::models::{CollectionConfigInternal, SearchQuerySettings};
use crate::qdrant::DbError;
use crate::search_filter;
use crate::search_group;
use crate::search_group::validate_group_field;
use crate::search_join;
use crate::search_join::{parse_join_field_validated, required_fields_for_joins};
use crate::text;
use crate::text::{copy_texts, text2};

verus! {

/// What the run waits for.
#[derive(Debug, Clone, Copy, PartialEq, Eq, Structural)]
pub enum SearchPhase {
    /// The collection's configuration.
    Config,
    /// The vectors of the queries.
    Vectorize,
    /// The configuration again, past the cache.
    Refresh,
    /// The vectors of the queries by the fresh configuration.
    VectorizeAgain,
    /// The database's answer to the query at hand.
    Search,
    /// The documents joined to its results.
    Join,
    /// The delivery of its answer.
    Reply,
    Done,
}

/// What the caller has to do next.
#[derive(Debug, PartialEq, Eq)]
pub enum SearchAction {
    FetchConfig,
    /// Compute the vectors of all queries by the configuration at hand.
    Vectorize,
    /// Forget the cached configuration and fetch it again.
    RefreshConfig,
    /// Search by the vectors of the query at this position.
    Search(usize),
    /// Join documents to the results of the query at this position.
    Join(usize),
    /// Answer the query at this position: with its results, or with an error.
    Reply(usize, Option<SearchError>),
    /// Answer every query with this error.
    FailAll(SearchError),
    Finish,
}

/// A bucket of searches under way.
pub struct SearchRun {
    pub phase: SearchPhase,
    pub settings: SearchQuerySettings,
    /// The number of queries.
    pub jobs: usize,
    /// The query at hand.
    pub at: usize,
    /// Whether the configuration came from the cache.
    pub from_cache: bool,
    /// Why the vectors could not be computed.
    pub failure: String,
    pub joins: Vec<JoinSpec>,
    /// The fields that must be fetched, whatever the query excludes.
    pub required: Vec<SearchExcludeField>,
}

/// The message where a join does not parse.
pub open spec fn join_error(join: Option<JoinField>) -> Option<Seq<char>> {
    match join {
        None => None,
        Some(j) => if j.exprs().len() == 0 {
            Some("Join list cannot be empty"@)
        } else {
            match join_parser::joins_of(j.exprs()) {
                Ok(_) => None,
                Err(e) => Some(e),
            }
        },
    }
}

/// The joins of a bucket.
pub open spec fn bucket_joins(join: Option<JoinField>) -> Seq<join_parser::JoinView> {
    match join {
        None => Seq::empty(),
        Some(j) => match join_parser::joins_of(j.exprs()) {
            Ok(v) => v,
            Err(_) => Seq::empty(),
        },
    }
}

/// What is wrong with the settings of a bucket, given the collection's
/// configuration: its filter, its grouping or its joins.
pub open spec fn bucket_problem(
    settings: SearchQuerySettings,
    config: CollectionConfigInternal,
) -> Option<Seq<char>> {
    let filter = match settings.metadata_filter {
        Some(f) => encoder::collection_filter_error(config, f),
        None => None,
    };
    let grouping = match settings.group_field {
        Some(field) => if search_group::is_indexed(
            search_filter::index_list(config.metadata_indexes),
            field@,
        ) {
            None
        } else {
            Some(
                "group_field '"@ + field@ + "' is not indexed in collection metadata_indexes"@,
            )
        },
        None => None,
    };
    if filter is Some {
        filter
    } else if grouping is Some {
        grouping
    } else {
        join_error(settings.join)
    }
}

/// Whether the metadata must be fetched whatever the query excludes: for a
/// join that reads them, for grouping or for facets.
pub open spec fn needs_metadata(settings: SearchQuerySettings, joins: Seq<JoinSpec>) -> bool {
    search_join::reads_parent_metadata(joins) || settings.group_field is Some || settings.facets
}

/// The fields that must be fetched whatever the query excludes.
pub open spec fn required_of(settings: SearchQuerySettings, joins: Seq<JoinSpec>) -> Seq<
    SearchExcludeField,
> {
    if needs_metadata(settings, joins) {
        seq![SearchExcludeField::Metadata]
    } else {
        Seq::empty()
    }
}

fn copy_join(join: &JoinField) -> (r: JoinField)
    ensures
        r.exprs() == join.exprs(),
{
    match join {
        JoinField::Single(s) => {
            let copy = s.as_str().to_owned();
            assert(seq![copy@] =~= seq![s@]);
            JoinField::Single(copy)
        },
        JoinField::Multiple(v) => JoinField::Multiple(copy_texts(v)),
    }
}

/// What a failure to get the configuration means for a search.
pub open spec fn config_failure(e: DbError, r: SearchError) -> bool {
    match e {
        DbError::NotFound(_) => r matches SearchError::NotFound(m) && m@
            == "Collection configuration not found"@,
        _ => r == SearchError::Db(e),
    }
}

/// What a failure of the database means for a search: an error of
/// configuration is one of the filter.
pub open spec fn search_failure(e: DbError, r: SearchError) -> bool {
    match e {
        DbError::Config(m) => r == SearchError::InvalidFilter(m),
        _ => r == SearchError::Db(e),
    }
}

impl SearchRun {
    /// Whether the query at hand is one of the bucket's, and the first one
    /// until the vectors are there.
    pub open spec fn wf(&self) -> bool {
        &&& (self.phase is Search || self.phase is Join || self.phase is Reply) ==> self.at
            < self.jobs
        &&& (self.phase is Config || self.phase is Vectorize || self.phase is Refresh
            || self.phase is VectorizeAgain) ==> self.at == 0
    }

    /// Starts a bucket of so many searches with the same settings.
    pub fn start(settings: SearchQuerySettings, jobs: usize) -> (r: (SearchRun, SearchAction))
        ensures
            r.0.wf(),
            r.0.phase is Config,
            r.0.settings == settings,
            r.0.jobs == jobs,
            r.0.at == 0,
            r.0.joins@.len() == 0,
            r.0.required@.len() == 0,
            r.1 is FetchConfig,
    {
        let run = SearchRun {
            phase: SearchPhase::Config,
            settings,
            jobs,
            at: 0,
            from_cache: false,
            failure: String::new(),
            joins: Vec::new(),
            required: Vec::new(),
        };
        (run, SearchAction::FetchConfig)
    }

    /// The configuration could not be had.
    pub fn on_config_error(&mut self, e: DbError) -> (r: SearchAction)
        requires
            old(self).wf(),
            old(self).phase is Config,
        ensures
            final(self).wf(),
            final(self).phase is Done,
            r matches SearchAction::FailAll(f) && config_failure(e, f),
    {
        self.phase = SearchPhase::Done;
        match e {
            DbError::NotFound(_) => SearchAction::FailAll(
                SearchError::NotFound("Collection configuration not found".to_owned()),
            ),
            other => SearchAction::FailAll(SearchError::Db(other)),
        }
    }

    /// The configuration came: the settings are checked against it.
    pub fn on_config(&mut self, config: &CollectionConfigInternal, from_cache: bool) -> (r:
        SearchAction)
        requires
            old(self).wf(),
            old(self).phase is Config,
        ensures
            final(self).wf(),
            final(self).settings == old(self).settings,
            final(self).jobs == old(self).jobs,
            final(self).at == old(self).at,
            match bucket_problem(old(self).settings, *config) {
                Some(m) => final(self).phase is Done && (r matches SearchAction::FailAll(
                    SearchError::InvalidFilter(e),
                ) && e@ == m),
                None => {
                    &&& final(self).phase is Vectorize
                    &&& final(self).from_cache == from_cache
                    &&& r is Vectorize
                    &&& join_parser::join_views(final(self).joins@) == bucket_joins(
                        old(self).settings.join,
                    )
                    &&& final(self).required@ == required_of(
                        old(self).settings,
                        final(self).joins@,
                    )
                },
            },
    {
        if let Some(filter) = &self.settings.metadata_filter {
            if let Err(e) = validate_metadata_filter(config, filter) {
                self.phase = SearchPhase::Done;
                return SearchAction::FailAll(SearchError::InvalidFilter(e.0));
            }
        }
        if let Some(field) = &self.settings.group_field {
            if let Err(e) = validate_group_field(config, field.as_str()) {
                self.phase = SearchPhase::Done;
                return SearchAction::FailAll(SearchError::InvalidFilter(e));
            }
        }
        let joins = match &self.settings.join {
            Some(join) => match parse_join_field_validated(copy_join(join)) {
                Ok(specs) => specs,
                Err(e) => {
                    self.phase = SearchPhase::Done;
                    return SearchAction::FailAll(e);
                },
            },
            None => {
                let none: Vec<JoinSpec> = Vec::new();
                assert(join_parser::join_views(none@) =~= Seq::empty());
                none
            },
        };
        let mut required = required_fields_for_joins(&joins);
        if required.len() == 0 && (self.settings.group_field.is_some() || self.settings.facets) {
            required.push(SearchExcludeField::Metadata);
        }
        assert(required@ =~= required_of(self.settings, joins@));
        self.required = required;
        self.joins = joins;
        self.from_cache = from_cache;
        self.phase = SearchPhase::Vectorize;
        SearchAction::Vectorize
    }

    /// The worker that computes the vectors is gone.
    pub fn on_worker_gone(&mut self, why: &str) -> (r: SearchAction)
        requires
            old(self).wf(),
            old(self).phase is Vectorize || old(self).phase is VectorizeAgain,
        ensures
            final(self).wf(),
            final(self).phase is Done,
            r matches SearchAction::FailAll(SearchError::Vectorization(m)) && m@
                == "Search pool channel dropped: "@ + why@,
    {
        self.phase = SearchPhase::Done;
        SearchAction::FailAll(
            SearchError::Vectorization(text2("Search pool channel dropped: ", why)),
        )
    }

    /// The vectors could not be computed. If the configuration came from the
    /// cache, it is fetched afresh, once.
    pub fn on_vectorize_error(&mut self, why: &str) -> (r: SearchAction)
        requires
            old(self).wf(),
            old(self).phase is Vectorize || old(self).phase is VectorizeAgain,
        ensures
            final(self).wf(),
            final(self).settings == old(self).settings,
            final(self).jobs == old(self).jobs,
            final(self).at == old(self).at,
            final(self).joins == old(self).joins,
            final(self).required == old(self).required,
            if old(self).phase is Vectorize && old(self).from_cache {
                final(self).phase is Refresh && final(self).failure@ == why@ && r is RefreshConfig
            } else {
                final(self).phase is Done && (r matches SearchAction::FailAll(
                    SearchError::Vectorization(m),
                ) && m@ == why@)
            },
    {
        if matches!(self.phase, SearchPhase::Vectorize) && self.from_cache {
            self.failure = why.to_owned();
            self.phase = SearchPhase::Refresh;
            return SearchAction::RefreshConfig;
        }
        self.phase = SearchPhase::Done;
        SearchAction::FailAll(SearchError::Vectorization(why.to_owned()))
    }

    /// The fresh configuration came, or it did not: then the first failure
    /// stands.
    pub fn on_refreshed(&mut self, ok: bool) -> (r: SearchAction)
        requires
            old(self).wf(),
            old(self).phase is Refresh,
        ensures
            final(self).wf(),
            final(self).settings == old(self).settings,
            final(self).jobs == old(self).jobs,
            final(self).at == old(self).at,
            final(self).joins == old(self).joins,
            final(self).required == old(self).required,
            if ok {
                final(self).phase is VectorizeAgain && r is Vectorize
            } else {
                final(self).phase is Done && (r matches SearchAction::FailAll(
                    SearchError::Vectorization(m),
                ) && m@ == old(self).failure@)
            },
    {
        if ok {
            self.phase = SearchPhase::VectorizeAgain;
            return SearchAction::Vectorize;
        }
        self.phase = SearchPhase::Done;
        SearchAction::FailAll(SearchError::Vectorization(self.failure.as_str().to_owned()))
    }

    /// The vectors of so many queries came.
    pub fn on_vectorized(&mut self, count: usize) -> (r: SearchAction)
        requires
            old(self).wf(),
            old(self).phase is Vectorize || old(self).phase is VectorizeAgain,
        ensures
            final(self).wf(),
            final(self).settings == old(self).settings,
            final(self).jobs == old(self).jobs,
            final(self).at == old(self).at,
            final(self).joins == old(self).joins,
            final(self).required == old(self).required,
            if count != old(self).jobs {
                final(self).phase is Done && (r matches SearchAction::FailAll(
                    SearchError::Vectorization(m),
                ) && m@ == "internal: vectorized batch length mismatch"@)
            } else if count == 0 {
                final(self).phase is Done && r is Finish
            } else {
                final(self).phase is Search && r == SearchAction::Search(0)
            },
    {
        if count != self.jobs {
            self.phase = SearchPhase::Done;
            return SearchAction::FailAll(
                SearchError::Vectorization(
                    "internal: vectorized batch length mismatch".to_owned(),
                ),
            );
        }
        if count == 0 {
            self.phase = SearchPhase::Done;
            return SearchAction::Finish;
        }
        self.phase = SearchPhase::Search;
        SearchAction::Search(0)
    }

    /// Results came for the query at hand.
    pub fn on_found(&mut self) -> (r: SearchAction)
        requires
            old(self).wf(),
            old(self).phase is Search,
        ensures
            final(self).wf(),
            final(self).settings == old(self).settings,
            final(self).jobs == old(self).jobs,
            final(self).at == old(self).at,
            final(self).joins == old(self).joins,
            final(self).required == old(self).required,
            if old(self).joins@.len() > 0 {
                final(self).phase is Join && r == SearchAction::Join(old(self).at)
            } else {
                final(self).phase is Reply && r == SearchAction::Reply(old(self).at, None)
            },
    {
        if self.joins.len() > 0 {
            self.phase = SearchPhase::Join;
            return SearchAction::Join(self.at);
        }
        self.phase = SearchPhase::Reply;
        SearchAction::Reply(self.at, None)
    }

    /// The search for the query at hand failed.
    pub fn on_search_error(&mut self, e: DbError) -> (r: SearchAction)
        requires
            old(self).wf(),
            old(self).phase is Search,
        ensures
            final(self).wf(),
            final(self).settings == old(self).settings,
            final(self).jobs == old(self).jobs,
            final(self).at == old(self).at,
            final(self).joins == old(self).joins,
            final(self).required == old(self).required,
            final(self).phase is Reply,
            r matches SearchAction::Reply(i, Some(f)) && i == old(self).at && search_failure(e, f),
    {
        self.phase = SearchPhase::Reply;
        let f = match e {
            DbError::Config(m) => SearchError::InvalidFilter(m),
            other => SearchError::Db(other),
        };
        SearchAction::Reply(self.at, Some(f))
    }

    /// The joins of the query at hand are done, or failed.
    pub fn on_joined(&mut self, failure: Option<SearchError>) -> (r: SearchAction)
        requires
            old(self).wf(),
            old(self).phase is Join,
        ensures
            final(self).wf(),
            final(self).settings == old(self).settings,
            final(self).jobs == old(self).jobs,
            final(self).at == old(self).at,
            final(self).joins == old(self).joins,
            final(self).required == old(self).required,
            final(self).phase is Reply,
            r == SearchAction::Reply(old(self).at, failure),
    {
        self.phase = SearchPhase::Reply;
        SearchAction::Reply(self.at, failure)
    }

    /// The answer was delivered; the next query is at hand, if there is one.
    pub fn on_replied(&mut self) -> (r: SearchAction)
        requires
            old(self).wf(),
            old(self).phase is Reply,
        ensures
            final(self).wf(),
            final(self).settings == old(self).settings,
            final(self).jobs == old(self).jobs,
            final(self).joins == old(self).joins,
            final(self).required == old(self).required,
            final(self).at == old(self).at + 1,
            if old(self).at + 1 < old(self).jobs {
                final(self).phase is Search && r == SearchAction::Search(
                    (old(self).at + 1) as usize,
                )
            } else {
                final(self).phase is Done && r is Finish
            },
    {
        self.at = self.at + 1;
        if self.at < self.jobs {
            self.phase = SearchPhase::Search;
            return SearchAction::Search(self.at);
        }
        self.phase = SearchPhase::Done;
        SearchAction::Finish
    }
}

/// The message of a full search queue.
pub open spec fn queue_full_text(capacity: nat) -> Seq<char> {
    "Search ingress queue full (capacity "@ + text::decimal(capacity) + "); retry later."@
}

/// The error of a search that finds the queue full.
pub fn search_queue_full() -> (r: SearchError)
    ensures
        r matches SearchError::IngressQueueFull(m) && m@ == queue_full_text(
            crate::ingress::SEARCH_INGRESS_QUEUE_CAPACITY as nat,
        ),
{
    let n = text::decimal_text(crate::ingress::SEARCH_INGRESS_QUEUE_CAPACITY as u64);
    SearchError::IngressQueueFull(
        text::text3("Search ingress queue full (capacity ", n.as_str(), "); retry later."),
    )
}

/// The error of a search whose worker is gone.
pub fn search_worker_gone() -> (r: SearchError)
    ensures
        r matches SearchError::IngressWorkerExited(m) && m@ == "Search ingress worker stopped."@,
{
    SearchError::IngressWorkerExited("Search ingress worker stopped.".to_owned())
}

/// Searches are refused exactly if their filter is not accepted by the collection,
/// the field that they group by is not indexed, or their joins cannot be read.
pub proof fn searches_are_refused_for_a_reason(
    settings: SearchQuerySettings,
    config: CollectionConfigInternal,
)
    ensures
        bucket_problem(settings, config) is None <==> {
            &&& settings.metadata_filter matches Some(f) ==> encoder::collection_filter_error(
                config,
                f,
            ) is None
            &&& settings.group_field matches Some(field) ==> search_group::is_indexed(
                search_filter::index_list(config.metadata_indexes),
                field@,
            )
            &&& settings.join matches Some(j) ==> j.exprs().len() > 0 && join_parser::joins_of(
                j.exprs(),
            ) is Ok
        },
{
}

/// The joins of a search are those that its expressions are read as; without
/// expressions there are none.
pub proof fn searches_are_joined_as_they_say(join: JoinField)
    ensures
        join_parser::joins_of(join.exprs()) matches Ok(v) ==> bucket_joins(Some(join)) == v,
        bucket_joins(None).len() == 0,
{
}

/// Metadata is read exactly if a join goes by it, results are grouped or facets
/// are asked for.
pub proof fn metadata_is_read_where_it_is_needed(
    settings: SearchQuerySettings,
    joins: Seq<JoinSpec>,
)
    ensures
        required_of(settings, joins).contains(SearchExcludeField::Metadata) <==> settings.group_field
            is Some || settings.facets || exists|i: int|
            0 <= i < joins.len() && (#[trigger] joins[i]).parent_ref.kind is Meta,
        required_of(settings, joins).len() <= 1,
{
    if needs_metadata(settings, joins) {
        assert(required_of(settings, joins)[0] == SearchExcludeField::Metadata);
    }
}

/// A missing configuration is told as not found, and any other error as that of
/// the database; an error of the settings of a search is told as a wrong filter.
pub proof fn database_errors_are_told(e: DbError, r: SearchError, s: SearchError)
    requires
        config_failure(e, r),
        search_failure(e, s),
    ensures
        e is NotFound <==> r is NotFound,
        !(e is NotFound) ==> r == SearchError::Db(e),
        e matches DbError::Config(m) ==> s == SearchError::InvalidFilter(m),
        !(e is Config) ==> s == SearchError::Db(e),
{
}

} // verus!
