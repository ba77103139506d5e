//! The export of a collection: a JSON array, written page by page.

use vstd::prelude::*;

use crate::json::{Json, JsonValue};
use crate::json_text;
use crate::json_text::to_json_text;
use crate::models;
use crate::models::export_value;
use crate::text;
use crate::text::{text2, text4};

verus! {

/// The JSON text of a document in an export.
pub open spec fn export_text(doc: Json) -> Seq<char> {
    json_text::json_text(models::without_nulls(models::flat_document(doc)))
}

/// Writes a document for an export: with flat metadata, and without the members
/// that are null.
pub fn document_to_export_json(doc: JsonValue) -> (r: String)
    ensures
        r@ == export_text(doc@),
{
    let shown = export_value(doc);
    to_json_text(&shown)
}

/// The name under which an export is offered.
pub fn export_file_name(collection: &str, timestamp: &str) -> (r: String)
    ensures
        r@ == collection@ + "-"@ + timestamp@ + ".json.gz"@,
{
    text4(collection, "-", timestamp, ".json.gz")
}

/// The documents of a page up to the first that could not be written.
pub open spec fn written(docs: Seq<Option<String>>) -> Seq<Seq<char>>
    decreases docs.len(),
{
    if docs.len() == 0 {
        Seq::empty()
    } else {
        match docs[0] {
            Some(d) => seq![d@] + written(docs.drop_first()),
            None => Seq::empty(),
        }
    }
}

/// Texts one after the other.
pub open spec fn run_together(parts: Seq<Seq<char>>) -> Seq<char>
    decreases parts.len(),
{
    if parts.len() == 0 {
        Seq::empty()
    } else {
        run_together(parts.drop_last()) + parts.last()
    }
}

/// The chunks of documents: each behind a comma, except the first of all.
pub open spec fn chunks(docs: Seq<Seq<char>>, first: bool) -> Seq<Seq<char>> {
    Seq::new(
        docs.len(),
        |i: int|
            if first && i == 0 {
                docs[i]
            } else {
                ","@ + docs[i]
            },
    )
}

/// An export under way.
#[derive(Debug, PartialEq, Eq)]
pub struct ExportRun {
    /// Whether no document was written yet.
    pub first: bool,
}

/// What comes next of an export.
#[derive(Debug, PartialEq, Eq)]
pub struct ExportPage {
    /// What to write of the page.
    pub chunks: Vec<String>,
    /// Where the next page starts; none after the last.
    pub next: Option<String>,
}

impl ExportRun {
    /// Starts an export. An opening bracket comes before the first page.
    pub fn start() -> (r: (ExportRun, String))
        ensures
            r.0.first,
            r.1@ == "["@,
    {
        (ExportRun { first: true }, "[".to_owned())
    }

    /// Writes a page, given what its documents were written as and where the
    /// database says that the next one starts.
    pub fn on_page(&mut self, docs: Vec<Option<String>>, after: Option<String>) -> (r: ExportPage)
        ensures
            text::views(r.chunks@) == chunks(written(docs@), old(self).first),
            final(self).first == (old(self).first && written(docs@).len() == 0),
            r.next == after,
    {
        let ghost all = docs@;
        let ghost first = self.first;
        let mut out: Vec<String> = Vec::new();
        assert(all.skip(0) =~= all);
        let mut going = true;
        assert(Seq::<Seq<char>>::empty() + written(all) =~= written(all));
        let ghost mut done: Seq<Seq<char>> = Seq::empty();
        assert(text::views(out@) =~= chunks(done, first));
        for d in it: docs
            invariant
                it.seq() == all,
                going ==> done + written(all.skip(it.index() as int)) == written(all),
                !going ==> done == written(all),
                text::views(out@) == chunks(done, first),
                self.first == (first && done.len() == 0),
        {
            proof {
                let i = it.index() as int;
                assert(all.skip(i)[0] == d);
                assert(all.skip(i).drop_first() =~= all.skip(i + 1));
            }
            if going {
                match d {
                    Some(t) => {
                        let ghost before = done;
                        let ghost shown = text::views(out@);
                        let ghost tail = written(all.skip(it.index() as int + 1));
                        let ghost doc = t@;
                        if self.first {
                            self.first = false;
                            out.push(t);
                        } else {
                            out.push(text2(",", t.as_str()));
                        }
                        proof {
                            done = before.push(doc);
                            assert(before + (seq![doc] + tail) =~= done + tail);
                            let chunk = if first && before.len() == 0 {
                                doc
                            } else {
                                ","@ + doc
                            };
                            assert(text::views(out@) =~= shown.push(chunk));
                            assert(chunks(done, first) =~= chunks(before, first).push(chunk));
                        }
                    },
                    None => {
                        going = false;
                        assert(done + Seq::<Seq<char>>::empty() =~= done);
                    },
                }
            }
        }
        proof {
            assert(all.skip(all.len() as int) =~= Seq::empty());
            assert(done + Seq::<Seq<char>>::empty() =~= done);
        }
        ExportPage { chunks: out, next: after }
    }

    /// Ends an export with a closing bracket.
    pub fn finish(self) -> (r: String)
        ensures
            r@ == "]"@,
    {
        "]".to_owned()
    }
}

/// The documents of pages, one after the other.
pub open spec fn all_documents(pages: Seq<Seq<Seq<char>>>) -> Seq<Seq<char>>
    decreases pages.len(),
{
    if pages.len() == 0 {
        Seq::empty()
    } else {
        all_documents(pages.drop_last()) + pages.last()
    }
}

/// What an export writes of pages, after its opening bracket.
pub open spec fn all_chunks(pages: Seq<Seq<Seq<char>>>) -> Seq<char>
    decreases pages.len(),
{
    if pages.len() == 0 {
        Seq::empty()
    } else {
        all_chunks(pages.drop_last()) + run_together(
            chunks(pages.last(), all_documents(pages.drop_last()).len() == 0),
        )
    }
}

proof fn lemma_join_push(parts: Seq<Seq<char>>, last: Seq<char>)
    ensures
        text::join(parts.push(last), ","@) == (if parts.len() == 0 {
            last
        } else {
            text::join(parts, ","@) + ","@ + last
        }),
{
    assert(parts.push(last).drop_last() =~= parts);
}

proof fn lemma_page(before: Seq<Seq<char>>, page: Seq<Seq<char>>)
    ensures
        text::join(before, ","@) + run_together(chunks(page, before.len() == 0)) == text::join(
            before + page,
            ","@,
        ),
    decreases page.len(),
{
    let first = before.len() == 0;
    let c = chunks(page, first);
    if page.len() == 0 {
        assert(c =~= Seq::empty());
        assert(before + page =~= before);
        assert(text::join(before, ","@) + run_together(c) =~= text::join(before, ","@));
    } else {
        let head = page.drop_last();
        lemma_page(before, head);
        assert(c.drop_last() =~= chunks(head, first));
        assert(before + page =~= (before + head).push(page.last()));
        lemma_join_push(before + head, page.last());
        let j = text::join(before, ","@);
        let run = run_together(chunks(head, first));
        if before.len() == 0 && head.len() == 0 {
            assert(before + head =~= Seq::empty());
            assert(c.last() == page.last());
            assert(j + (run + c.last()) =~= page.last());
        } else {
            assert(c.last() == ","@ + page.last());
            assert(j + (run + c.last()) =~= (j + run) + ","@ + page.last());
        }
    }
}

/// An export is an array: the documents of all pages, with commas between them.
pub proof fn exports_are_arrays(pages: Seq<Seq<Seq<char>>>)
    ensures
        all_chunks(pages) == text::join(all_documents(pages), ","@),
    decreases pages.len(),
{
    if pages.len() > 0 {
        exports_are_arrays(pages.drop_last());
        lemma_page(all_documents(pages.drop_last()), pages.last());
    }
}

/// Of a page the documents up to the first that cannot be written are.
pub proof fn documents_are_written_up_to_the_first_failure(docs: Seq<Option<String>>, n: int, i: int)
    requires
        0 <= n <= docs.len(),
        forall|k: int| 0 <= k < n ==> (#[trigger] docs[k]) is Some,
        n == docs.len() || docs[n] is None,
    ensures
        written(docs).len() == n,
        0 <= i < n ==> written(docs)[i] == docs[i]->0@,
    decreases docs.len(),
{
    if n > 0 {
        let rest = docs.drop_first();
        assert(docs[0] is Some);
        assert forall|k: int| 0 <= k < n - 1 implies (#[trigger] rest[k]) is Some by {
            assert(rest[k] == docs[k + 1]);
        }
        documents_are_written_up_to_the_first_failure(rest, n - 1, i - 1);
    }
}

/// A document is exported as it is shown, without nulls and as JSON.
pub proof fn documents_are_exported_as_shown(doc: Json)
    ensures
        export_text(doc) == json_text::json_text(
            models::without_nulls(models::flat_document(doc)),
        ),
{
}

} // verus!
