//! Templates of vectors: parsing, validation and rendering.
//!
//! A placeholder is a pair of braces around at least one character that is no
//! brace. A document's template has the placeholders `{name}`,
//! `{description}`, `{content}` and `{.meta.<key>}`; a query's template has
//! `{query}`.

use vstd::prelude::*;
use crate::common::DocumentField;
use crate::json;
use crate::json::{get_member, Json, JsonNumber, JsonValue};
use crate::json_text;
use crate::json_text::number_to_text;
use crate::models::{Document, VectorConfigInternal};
use crate::text;
use crate::text::{
    char_count, chars_of, has_prefix, identifier, joined, same_opt_text, same_text, text3, text5, text_between,
    text_from, trimmed,
};

verus! {

/// What precedes the key in a placeholder for metadata.
pub const META_PREFIX: &'static str = ".meta.";

/// Whether a vector is made of a template's text.
pub fn uses_templates(config: &VectorConfigInternal) -> (r: bool)
    ensures
        r == config.doc_template is Some,
{
    config.doc_template.is_some()
}

/// The fields that a vector is made of: its own, or the template.
pub open spec fn index_fields_of(config: VectorConfigInternal) -> Result<
    Seq<DocumentField>,
    Seq<char>,
> {
    if config.doc_template is Some {
        Ok(seq![DocumentField::Template])
    } else {
        match config.index_fields {
            Some(fields) => if fields@.len() > 0 {
                Ok(fields@)
            } else {
                Err("Vector '"@ + config.name@ + "' has empty index_fields and no templates"@)
            },
            None => Err("Vector '"@ + config.name@ + "' has no index_fields and no templates"@),
        }
    }
}

/// Copies a list of fields.
fn copy_fields(fields: &Vec<DocumentField>) -> (r: Vec<DocumentField>)
    ensures
        r@ == fields@,
{
    let mut out: Vec<DocumentField> = Vec::new();
    let mut i: usize = 0;
    while i < fields.len()
        invariant
            i <= fields@.len(),
            out@ == fields@.take(i as int),
        decreases fields.len() - i,
    {
        out.push(fields[i]);
        assert(out@ =~= fields@.take(i as int + 1));
        i += 1;
    }
    assert(fields@.take(i as int) =~= fields@);
    out
}

/// The fields that a vector is made of.
pub fn vector_index_fields(config: &VectorConfigInternal) -> (r: Result<Vec<DocumentField>, String>)
    ensures
        match r {
            Ok(fields) => index_fields_of(*config) == Ok::<Seq<DocumentField>, Seq<char>>(fields@),
            Err(e) => index_fields_of(*config) == Err::<Seq<DocumentField>, Seq<char>>(e@),
        },
{
    if uses_templates(config) {
        let r = vec![DocumentField::Template];
        assert(r@ =~= seq![DocumentField::Template]);
        return Ok(r);
    }
    match &config.index_fields {
        Some(fields) => if fields.len() > 0 {
            Ok(copy_fields(fields))
        } else {
            Err(
                text3("Vector '", config.name.as_str(), "' has empty index_fields and no templates"),
            )
        },
        None => Err(
            text3("Vector '", config.name.as_str(), "' has no index_fields and no templates"),
        ),
    }
}

impl VectorConfigInternal {
    /// The slots that a vector has in a document: the fields that it is made of,
    /// or the template. One without either has none.
    pub open spec fn slots(&self) -> Seq<DocumentField> {
        match index_fields_of(*self) {
            Ok(fields) => fields,
            Err(_) => Seq::empty(),
        }
    }
}

/// The slots that a vector has in a document.
pub fn field_slots(config: &VectorConfigInternal) -> (r: Vec<DocumentField>)
    ensures
        r@ == config.slots(),
{
    match vector_index_fields(config) {
        Ok(fields) => fields,
        Err(_) => Vec::new(),
    }
}

/// A vector that is made of a template has one slot, whatever its fields.
pub proof fn templates_have_one_slot(config: VectorConfigInternal)
    requires
        config.doc_template is Some,
    ensures
        config.slots() == seq![DocumentField::Template],
{
}

/// The first position from `i` on with a brace, or the length.
pub open spec fn next_brace(s: Seq<char>, i: int) -> int
    decreases s.len() - i,
{
    if i >= s.len() || s[i] == '{' || s[i] == '}' {
        i
    } else {
        next_brace(s, i + 1)
    }
}

/// Whether a placeholder starts at a position.
pub open spec fn placeholder_at(s: Seq<char>, i: int) -> bool {
    &&& 0 <= i < s.len()
    &&& s[i] == '{'
    &&& i + 1 < next_brace(s, i + 1) < s.len()
    &&& s[next_brace(s, i + 1)] == '}'
}

/// The placeholders of a text from a position on: where each starts, and where
/// its closing brace is.
pub open spec fn placeholders(s: Seq<char>, from: int) -> Seq<(int, int)>
    decreases s.len() - from,
{
    if from < 0 || from >= s.len() {
        Seq::empty()
    } else if placeholder_at(s, from) {
        let e = next_brace(s, from + 1);
        seq![(from, e)] + placeholders(s, e + 1)
    } else {
        placeholders(s, from + 1)
    }
}

proof fn lemma_next_brace(s: Seq<char>, i: int)
    requires
        0 <= i <= s.len(),
    ensures
        i <= next_brace(s, i) <= s.len(),
        forall|k: int| i <= k < next_brace(s, i) ==> s[k] != '{' && s[k] != '}',
        next_brace(s, i) < s.len() ==> s[next_brace(s, i)] == '{' || s[next_brace(s, i)] == '}',
    decreases s.len() - i,
{
    if i < s.len() && s[i] != '{' && s[i] != '}' {
        lemma_next_brace(s, i + 1);
    }
}

/// Spans in machine integers.
spec fn spans(v: Seq<(usize, usize)>) -> Seq<(int, int)> {
    Seq::new(v.len(), |i: int| (v[i].0 as int, v[i].1 as int))
}

/// The names in the placeholders of a text.
pub open spec fn names_of(s: Seq<char>, p: Seq<(int, int)>) -> Seq<Seq<char>> {
    Seq::new(p.len(), |i: int| s.subrange(p[i].0 + 1, p[i].1))
}

/// The names of a template's placeholders, in order.
pub open spec fn placeholder_names(template: Seq<char>) -> Seq<Seq<char>> {
    names_of(template, placeholders(template, 0))
}

/// Whether spans lie one after the other within a text from a position on.
pub open spec fn spans_within(s: Seq<char>, p: Seq<(int, int)>, from: int) -> bool {
    &&& forall|i: int| 0 <= i < p.len() ==> from <= (#[trigger] p[i]).0 < p[i].1 < s.len()
    &&& forall|i: int, j: int|
        #![trigger p[i], p[j]]
        0 <= i < j < p.len() ==> p[i].1 < p[j].0
}

proof fn lemma_placeholders_within(s: Seq<char>, from: int)
    requires
        0 <= from,
    ensures
        spans_within(s, placeholders(s, from), from),
        forall|i: int|
            0 <= i < placeholders(s, from).len() ==> placeholder_at(
                s,
                (#[trigger] placeholders(s, from)[i]).0,
            ) && placeholders(s, from)[i].1 == next_brace(s, placeholders(s, from)[i].0 + 1),
    decreases s.len() - from,
{
    if from < s.len() {
        if placeholder_at(s, from) {
            let e = next_brace(s, from + 1);
            lemma_placeholders_within(s, e + 1);
            let rest = placeholders(s, e + 1);
            let all = placeholders(s, from);
            assert forall|i: int| 0 <= i < all.len() implies from <= (#[trigger] all[i]).0
                < all[i].1 < s.len() && placeholder_at(s, all[i].0) && all[i].1 == next_brace(
                s,
                all[i].0 + 1,
            ) by {
                if i > 0 {
                    assert(all[i] == rest[i - 1]);
                }
            }
            assert forall|i: int, j: int|
                #![trigger all[i], all[j]]
                0 <= i < j < all.len() implies all[i].1 < all[j].0 by {
                assert(all[j] == rest[j - 1]);
                if i > 0 {
                    assert(all[i] == rest[i - 1]);
                }
            }
        } else {
            lemma_placeholders_within(s, from + 1);
        }
    }
}

fn parse_placeholders(c: &Vec<char>) -> (r: Vec<(usize, usize)>)
    ensures
        spans(r@) == placeholders(c@, 0),
{
    let mut out: Vec<(usize, usize)> = Vec::new();
    let n: usize = c.len();
    let mut i: usize = 0;
    assert(spans(out@) =~= Seq::empty());
    assert(spans(out@) + placeholders(c@, 0) =~= placeholders(c@, 0));
    while i < n
        invariant
            i <= n,
            n == c@.len(),
            spans(out@) + placeholders(c@, i as int) == placeholders(c@, 0),
        decreases n - i,
    {
        proof {
            lemma_next_brace(c@, i as int + 1);
        }
        if c[i] == '{' {
            let mut e: usize = i + 1;
            while e < n && c[e] != '{' && c[e] != '}'
                invariant
                    i < e <= n,
                    n == c@.len(),
                    next_brace(c@, i as int + 1) == next_brace(c@, e as int),
                decreases n - e,
            {
                e += 1;
            }
            assert(e == next_brace(c@, i as int + 1));
            if e < n && c[e] == '}' && e > i + 1 {
                assert(placeholder_at(c@, i as int));
                let ghost before = spans(out@);
                out.push((i, e));
                proof {
                    assert(spans(out@) =~= before.push((i as int, e as int)));
                    assert(before + (seq![(i as int, e as int)] + placeholders(c@, e as int + 1))
                        =~= spans(out@) + placeholders(c@, e as int + 1));
                }
                i = e + 1;
            } else {
                i += 1;
            }
        } else {
            i += 1;
        }
    }
    assert(spans(out@) =~= placeholders(c@, 0));
    out
}

/// What is wrong with a placeholder of a document's template.
pub open spec fn doc_placeholder_problem(name: Seq<char>) -> Option<Seq<char>> {
    if name == "name"@ || name == "description"@ || name == "content"@ {
        None
    } else if META_PREFIX@.is_prefix_of(name) {
        if text::is_identifier(name.skip(META_PREFIX@.len() as int)) {
            None
        } else {
            Some(
                "Invalid doc_template placeholder '{"@ + name
                    + "}': meta key must match [a-zA-Z0-9_-]+"@,
            )
        }
    } else {
        Some(
            "Invalid doc_template placeholder '{"@ + name
                + "}': allowed are {name}, {description}, {content}, {.meta.<key>}"@,
        )
    }
}

/// The first thing wrong with the placeholders of a document's template.
pub open spec fn doc_placeholders_problem(names: Seq<Seq<char>>) -> Option<Seq<char>>
    decreases names.len(),
{
    if names.len() == 0 {
        None
    } else if doc_placeholder_problem(names[0]) is Some {
        doc_placeholder_problem(names[0])
    } else {
        doc_placeholders_problem(names.drop_first())
    }
}

/// What is wrong with a document's template.
pub open spec fn doc_template_problem(template: Seq<char>) -> Option<Seq<char>> {
    if template.len() == 0 {
        Some("doc_template cannot be empty"@)
    } else if placeholder_names(template).len() == 0 {
        Some(
            "doc_template must contain at least one placeholder ({name}, {description}, {content}, or {.meta.<key>})"@,
        )
    } else {
        doc_placeholders_problem(placeholder_names(template))
    }
}

/// What a check found wrong, if anything.
pub open spec fn template_problem(r: Result<(), String>) -> Option<Seq<char>> {
    match r {
        Ok(_) => None,
        Err(e) => Some(e@),
    }
}

fn check_doc_placeholder(name: &str) -> (r: Result<(), String>)
    ensures
        template_problem(r) == doc_placeholder_problem(name@),
{
    if same_text(name, "name") || same_text(name, "description") || same_text(name, "content") {
        return Ok(());
    }
    if has_prefix(name, META_PREFIX) {
        let key = text_from(name, char_count(META_PREFIX));
        if identifier(key.as_str()) {
            return Ok(());
        }
        return Err(
            text3(
                "Invalid doc_template placeholder '{",
                name,
                "}': meta key must match [a-zA-Z0-9_-]+",
            ),
        );
    }
    Err(
        text3(
            "Invalid doc_template placeholder '{",
            name,
            "}': allowed are {name}, {description}, {content}, {.meta.<key>}",
        ),
    )
}

/// The texts in the placeholders.
fn collect_names(c: &Vec<char>, p: &Vec<(usize, usize)>) -> (r: Vec<String>)
    requires
        spans(p@) == placeholders(c@, 0),
    ensures
        text::views(r@) == names_of(c@, placeholders(c@, 0)),
{
    let mut out: Vec<String> = Vec::new();
    let mut i: usize = 0;
    proof {
        lemma_placeholders_within(c@, 0);
    }
    while i < p.len()
        invariant
            i <= p@.len(),
            out@.len() == i,
            spans(p@) == placeholders(c@, 0),
            spans_within(c@, placeholders(c@, 0), 0),
            forall|k: int|
                0 <= k < i ==> (#[trigger] out@[k])@ == names_of(c@, placeholders(c@, 0))[k],
        decreases p.len() - i,
    {
        assert(spans(p@)[i as int] == (p@[i as int].0 as int, p@[i as int].1 as int));
        let (start, end) = p[i];
        out.push(text_between(c, start + 1, end));
        i += 1;
    }
    assert(text::views(out@) =~= names_of(c@, placeholders(c@, 0)));
    out
}

/// Checks a document's template.
pub fn validate_doc_template(template: &str) -> (r: Result<(), String>)
    ensures
        template_problem(r) == doc_template_problem(template@),
{
    let c = chars_of(template);
    if c.len() == 0 {
        return Err("doc_template cannot be empty".to_owned());
    }
    let p = parse_placeholders(&c);
    let names = collect_names(&c, &p);
    let ghost all = text::views(names@);
    assert(all.len() == names@.len());
    if names.len() == 0 {
        return Err(
            "doc_template must contain at least one placeholder ({name}, {description}, {content}, or {.meta.<key>})".to_owned(),
        );
    }
    let mut i: usize = 0;
    assert(all.skip(0) =~= all);
    while i < names.len()
        invariant
            i <= names@.len(),
            all == text::views(names@),
            all == placeholder_names(template@),
            template@.len() > 0,
            all.len() > 0,
            doc_placeholders_problem(all) == doc_placeholders_problem(all.skip(i as int)),
        decreases names.len() - i,
    {
        assert(all.skip(i as int)[0] == names@[i as int]@);
        assert(all.skip(i as int).drop_first() =~= all.skip(i as int + 1));
        let r = check_doc_placeholder(names[i].as_str());
        if r.is_err() {
            return r;
        }
        i += 1;
    }
    Ok(())
}

/// What is wrong with a query's template.
pub open spec fn query_template_problem(template: Seq<char>) -> Option<Seq<char>> {
    if template.len() == 0 {
        Some("query_template cannot be empty"@)
    } else if placeholder_names(template) != seq!["query"@] {
        Some("query_template must contain exactly one {query} placeholder and no others"@)
    } else {
        None
    }
}

/// Checks a query's template.
pub fn validate_query_template(template: &str) -> (r: Result<(), String>)
    ensures
        template_problem(r) == query_template_problem(template@),
{
    let c = chars_of(template);
    if c.len() == 0 {
        return Err("query_template cannot be empty".to_owned());
    }
    let p = parse_placeholders(&c);
    let names = collect_names(&c, &p);
    assert(text::views(names@).len() == names@.len());
    if names.len() == 1 && same_text(names[0].as_str(), "query") {
        assert(text::views(names@)[0] == names@[0]@);
        assert(text::views(names@) =~= seq!["query"@]);
        return Ok(());
    }
    assert(placeholder_names(template@) != seq!["query"@]) by {
        if placeholder_names(template@) == seq!["query"@] {
            assert(text::views(names@)[0] == "query"@);
        }
    }
    Err("query_template must contain exactly one {query} placeholder and no others".to_owned())
}

/// The text of a truth value, a number or a text.
pub open spec fn scalar_text(v: Json) -> Option<Seq<char>> {
    match v {
        Json::Bool(b) => Some(
            if b {
                "true"@
            } else {
                "false"@
            },
        ),
        Json::Number(n) => Some(json_text::number_text(n)),
        Json::Text(s) => Some(s),
        _ => None,
    }
}

fn scalar_to_str(value: &JsonValue) -> (r: Option<String>)
    ensures
        text::opt_view(r) == scalar_text(value@),
{
    match value {
        JsonValue::Bool(b) => if *b {
            Some("true".to_owned())
        } else {
            Some("false".to_owned())
        },
        JsonValue::Number(n) => Some(number_to_text(n)),
        JsonValue::Text(s) => Some(s.as_str().to_owned()),
        _ => None,
    }
}

/// The texts of values, if each has one.
pub open spec fn scalar_texts(items: Seq<Json>) -> Option<Seq<Seq<char>>>
    decreases items.len(),
{
    if items.len() == 0 {
        Some(Seq::empty())
    } else {
        match (scalar_texts(items.drop_last()), scalar_text(items.last())) {
            (Some(rest), Some(t)) => Some(rest.push(t)),
            _ => None,
        }
    }
}

/// The text of a metadata value in a template: that of a scalar, those of a
/// list of scalars with spaces between them, and nothing otherwise.
pub open spec fn meta_text(v: Json) -> Seq<char> {
    match v {
        Json::Array(items) => match scalar_texts(items) {
            Some(parts) => text::join(parts, " "@),
            None => Seq::empty(),
        },
        _ => match scalar_text(v) {
            Some(t) => t,
            None => Seq::empty(),
        },
    }
}

fn empty_text() -> (r: String)
    ensures
        r@ == Seq::<char>::empty(),
{
    let r = String::new();
    assert(r@ =~= Seq::<char>::empty());
    r
}

fn meta_value_to_template_str(value: &JsonValue) -> (r: String)
    ensures
        r@ == meta_text(value@),
{
    if let JsonValue::Array(items) = value {
        let ghost all = json::values(items@);
        proof {
            JsonValue::array_view(*items);
        }
        let mut parts: Vec<String> = Vec::new();
        let mut i: usize = 0;
        assert(all.take(0) =~= Seq::empty());
        assert(text::views(parts@) =~= Seq::empty());
        while i < items.len()
            invariant
                i <= items@.len(),
                all == json::values(items@),
                value@ == Json::Array(all),
                scalar_texts(all.take(i as int)) == Some(text::views(parts@)),
            decreases items.len() - i,
        {
            assert(all.take(i as int + 1).last() == items@[i as int]@);
            assert(all.take(i as int + 1).drop_last() =~= all.take(i as int));
            match scalar_to_str(&items[i]) {
                Some(t) => {
                    let ghost before = text::views(parts@);
                    let ghost view = t@;
                    parts.push(t);
                    assert(text::views(parts@) =~= before.push(view));
                },
                None => {
                    proof {
                        lemma_no_scalar_texts(all, i as int + 1);
                    }
                    return empty_text();
                },
            }
            i += 1;
        }
        assert(all.take(i as int) =~= all);
        return joined(&parts, " ");
    }
    match scalar_to_str(value) {
        Some(t) => t,
        None => empty_text(),
    }
}

proof fn lemma_no_scalar_texts(items: Seq<Json>, n: int)
    requires
        0 <= n <= items.len(),
        scalar_texts(items.take(n)) is None,
    ensures
        scalar_texts(items) is None,
    decreases items.len(),
{
    if n == items.len() {
        assert(items.take(n) =~= items);
    } else {
        assert(items.drop_last().take(n) =~= items.take(n));
        lemma_no_scalar_texts(items.drop_last(), n);
    }
}

/// The text of an optional field.
pub open spec fn field_text(t: Option<String>) -> Seq<char> {
    match t {
        Some(t) => t@,
        None => Seq::empty(),
    }
}

fn field_or_empty(t: &Option<String>) -> (r: String)
    ensures
        r@ == field_text(*t),
{
    match t {
        Some(t) => t.as_str().to_owned(),
        None => empty_text(),
    }
}

/// What a placeholder of a document's template stands for.
pub open spec fn doc_value(document: Document, name: Seq<char>) -> Result<Seq<char>, Seq<char>> {
    if name == "name"@ {
        Ok(field_text(document.name))
    } else if name == "description"@ {
        Ok(field_text(document.description))
    } else if name == "content"@ {
        Ok(field_text(document.content))
    } else if META_PREFIX@.is_prefix_of(name) {
        let key = name.skip(META_PREFIX@.len() as int);
        match document.metadata {
            None => Ok(Seq::empty()),
            Some(m) => match json::member(json::members(m@), key) {
                None => Ok(Seq::empty()),
                Some(v) => Ok(meta_text(v)),
            },
        }
    } else {
        Err("Unexpected doc template placeholder '{"@ + name + "}'"@)
    }
}

/// What a text result holds.
pub open spec fn text_result(r: Result<String, String>) -> Result<Seq<char>, Seq<char>> {
    match r {
        Ok(t) => Ok(t@),
        Err(e) => Err(e@),
    }
}

fn doc_placeholder_value(document: &Document, name: &str) -> (r: Result<String, String>)
    ensures
        text_result(r) == doc_value(*document, name@),
{
    if same_text(name, "name") {
        return Ok(field_or_empty(&document.name));
    }
    if same_text(name, "description") {
        return Ok(field_or_empty(&document.description));
    }
    if same_text(name, "content") {
        return Ok(field_or_empty(&document.content));
    }
    if has_prefix(name, META_PREFIX) {
        let key = text_from(name, char_count(META_PREFIX));
        return match &document.metadata {
            None => Ok(empty_text()),
            Some(m) => match get_member(m, key.as_str()) {
                None => Ok(empty_text()),
                Some(v) => Ok(meta_value_to_template_str(v)),
            },
        };
    }
    Err(text3("Unexpected doc template placeholder '{", name, "}'"))
}

/// What the placeholders stand for, or the first error.
pub open spec fn doc_values(document: Document, names: Seq<Seq<char>>) -> Result<
    Seq<Seq<char>>,
    Seq<char>,
>
    decreases names.len(),
{
    if names.len() == 0 {
        Ok(Seq::empty())
    } else {
        match doc_values(document, names.drop_last()) {
            Err(e) => Err(e),
            Ok(rest) => match doc_value(document, names.last()) {
                Err(e) => Err(e),
                Ok(v) => Ok(rest.push(v)),
            },
        }
    }
}

/// Whether all texts are blank.
pub open spec fn all_blank(values: Seq<Seq<char>>) -> bool {
    forall|i: int| 0 <= i < values.len() ==> text::trim(#[trigger] values[i]).len() == 0
}

/// A text up to the last of the spans, with values in place of the spans.
pub open spec fn filled(s: Seq<char>, p: Seq<(int, int)>, values: Seq<Seq<char>>) -> Seq<char>
    decreases p.len(),
{
    if p.len() == 0 {
        Seq::empty()
    } else {
        let from = if p.len() == 1 {
            0
        } else {
            p[p.len() - 2].1 + 1
        };
        filled(s, p.drop_last(), values.drop_last()) + s.subrange(from, p.last().0) + values.last()
    }
}

/// A text with values in place of the spans.
pub open spec fn with_values(s: Seq<char>, p: Seq<(int, int)>, values: Seq<Seq<char>>) -> Seq<char> {
    let from = if p.len() == 0 {
        0
    } else {
        p.last().1 + 1
    };
    filled(s, p, values) + s.subrange(from, s.len() as int)
}

/// A document's text by a template. It is empty if all its placeholders stand
/// for blank text.
pub open spec fn doc_text(template: Seq<char>, document: Document) -> Result<Seq<char>, Seq<char>> {
    let p = placeholders(template, 0);
    match doc_values(document, names_of(template, p)) {
        Err(e) => Err(e),
        Ok(values) => if all_blank(values) {
            Ok(Seq::empty())
        } else {
            Ok(with_values(template, p, values))
        },
    }
}

proof fn lemma_doc_values_len(document: Document, names: Seq<Seq<char>>)
    ensures
        doc_values(document, names) matches Ok(v) ==> v.len() == names.len(),
    decreases names.len(),
{
    if names.len() > 0 {
        lemma_doc_values_len(document, names.drop_last());
    }
}

proof fn lemma_doc_values_error(document: Document, names: Seq<Seq<char>>, n: int)
    requires
        0 <= n <= names.len(),
        doc_values(document, names.take(n)) is Err,
    ensures
        doc_values(document, names) == doc_values(document, names.take(n)),
    decreases names.len(),
{
    if n == names.len() {
        assert(names.take(n) =~= names);
    } else {
        assert(names.drop_last().take(n) =~= names.take(n));
        lemma_doc_values_error(document, names.drop_last(), n);
    }
}

fn collect_values(document: &Document, names: &Vec<String>) -> (r: Result<Vec<String>, String>)
    ensures
        match r {
            Ok(v) => doc_values(*document, text::views(names@)) == Ok::<
                Seq<Seq<char>>,
                Seq<char>,
            >(text::views(v@)),
            Err(e) => doc_values(*document, text::views(names@)) == Err::<
                Seq<Seq<char>>,
                Seq<char>,
            >(e@),
        },
{
    let ghost all = text::views(names@);
    let mut out: Vec<String> = Vec::new();
    let mut i: usize = 0;
    assert(all.take(0) =~= Seq::empty());
    assert(text::views(out@) =~= Seq::empty());
    while i < names.len()
        invariant
            i <= names@.len(),
            all == text::views(names@),
            doc_values(*document, all.take(i as int)) == Ok::<Seq<Seq<char>>, Seq<char>>(
                text::views(out@),
            ),
        decreases names.len() - i,
    {
        assert(all.take(i as int + 1).last() == names@[i as int]@);
        assert(all.take(i as int + 1).drop_last() =~= all.take(i as int));
        match doc_placeholder_value(document, names[i].as_str()) {
            Ok(v) => {
                let ghost before = text::views(out@);
                let ghost view = v@;
                out.push(v);
                assert(text::views(out@) =~= before.push(view));
            },
            Err(e) => {
                proof {
                    lemma_doc_values_error(*document, all, i as int + 1);
                }
                return Err(e);
            },
        }
        i += 1;
    }
    assert(all.take(i as int) =~= all);
    Ok(out)
}

fn blank_all(values: &Vec<String>) -> (r: bool)
    ensures
        r == all_blank(text::views(values@)),
{
    let mut i: usize = 0;
    while i < values.len()
        invariant
            i <= values@.len(),
            forall|k: int|
                0 <= k < i ==> text::trim(#[trigger] text::views(values@)[k]).len() == 0,
        decreases values.len() - i,
    {
        let t = trimmed(values[i].as_str());
        assert(text::views(values@)[i as int] == values@[i as int]@);
        if char_count(t.as_str()) > 0 {
            return false;
        }
        i += 1;
    }
    true
}

fn fill(c: &Vec<char>, p: &Vec<(usize, usize)>, values: &Vec<String>) -> (r: String)
    requires
        spans(p@) == placeholders(c@, 0),
        values@.len() == p@.len(),
    ensures
        r@ == with_values(c@, placeholders(c@, 0), text::views(values@)),
{
    let ghost all = placeholders(c@, 0);
    let ghost vals = text::views(values@);
    let mut out = empty_text();
    let n: usize = c.len();
    let mut last: usize = 0;
    let mut i: usize = 0;
    proof {
        lemma_placeholders_within(c@, 0);
        assert(all.take(0) =~= Seq::empty());
    }
    while i < p.len()
        invariant
            i <= p@.len(),
            values@.len() == p@.len(),
            all == placeholders(c@, 0),
            vals == text::views(values@),
            spans(p@) == all,
            spans_within(c@, all, 0),
            n == c@.len(),
            last <= n,
            last == if i == 0 {
                0
            } else {
                all[i - 1].1 + 1
            },
            out@ == filled(c@, all.take(i as int), vals.take(i as int)),
        decreases p.len() - i,
    {
        proof {
            assert(spans(p@)[i as int] == (p@[i as int].0 as int, p@[i as int].1 as int));
            assert(all[i as int] == spans(p@)[i as int]);
            assert(all.take(i as int + 1).drop_last() =~= all.take(i as int));
            assert(vals.take(i as int + 1).drop_last() =~= vals.take(i as int));
            assert(all.take(i as int + 1).last() == all[i as int]);
            assert(vals.take(i as int + 1).last() == values@[i as int]@);
            if i > 0 {
                assert(all.take(i as int + 1)[i as int - 1] == all[i as int - 1]);
                assert(all[i as int - 1].1 < all[i as int].0);
            }
        }
        let (start, end) = p[i];
        let between = text_between(c, last, start);
        out.append(between.as_str());
        out.append(values[i].as_str());
        last = end + 1;
        i += 1;
    }
    assert(all.take(i as int) =~= all);
    assert(vals.take(i as int) =~= vals);
    let rest = text_between(c, last, c.len());
    out.append(rest.as_str());
    out
}

/// Renders a document's text by a template.
pub fn render_doc_template(template: &str, document: &Document) -> (r: Result<String, String>)
    ensures
        text_result(r) == doc_text(template@, *document),
{
    let c = chars_of(template);
    let p = parse_placeholders(&c);
    let names = collect_names(&c, &p);
    let values = match collect_values(document, &names) {
        Ok(values) => values,
        Err(e) => {
            return Err(e);
        },
    };
    proof {
        lemma_doc_values_len(*document, text::views(names@));
        assert(text::views(values@).len() == values@.len());
        assert(spans(p@).len() == p@.len());
    }
    if blank_all(&values) {
        return Ok(empty_text());
    }
    Ok(fill(&c, &p, &values))
}

/// Whether what a placeholder stands for differs between two versions of a
/// document. Content that is not stored is compared by its hash.
pub open spec fn placeholder_changed(
    name: Seq<char>,
    incoming: Document,
    existing: Document,
    store_content: bool,
) -> bool {
    if name == "content"@ && !store_content {
        text::opt_view(incoming.content_hash) != text::opt_view(existing.content_hash)
    } else {
        doc_value(incoming, name) != doc_value(existing, name)
    }
}

/// Whether what any placeholder of a template stands for differs between two
/// versions of a document.
pub open spec fn template_changed(
    template: Seq<char>,
    incoming: Document,
    existing: Document,
    store_content: bool,
) -> bool {
    exists|i: int|
        0 <= i < placeholder_names(template).len() && placeholder_changed(
            #[trigger] placeholder_names(template)[i],
            incoming,
            existing,
            store_content,
        )
}

fn has_placeholder_changed(
    name: &str,
    incoming: &Document,
    existing: &Document,
    store_content: bool,
) -> (r: bool)
    ensures
        r == placeholder_changed(name@, *incoming, *existing, store_content),
{
    if !store_content && same_text(name, "content") {
        return !same_opt_text(&incoming.content_hash, &existing.content_hash);
    }
    let before = doc_placeholder_value(existing, name);
    let after = doc_placeholder_value(incoming, name);
    match (before, after) {
        (Ok(a), Ok(b)) => !same_text(a.as_str(), b.as_str()),
        (Err(a), Err(b)) => !same_text(a.as_str(), b.as_str()),
        _ => true,
    }
}

/// Whether what any placeholder of a template stands for differs between two
/// versions of a document.
pub fn has_template_changed(
    template: &str,
    incoming: &Document,
    existing: &Document,
    store_content: bool,
) -> (r: bool)
    ensures
        r == template_changed(template@, *incoming, *existing, store_content),
{
    let c = chars_of(template);
    let p = parse_placeholders(&c);
    let names = collect_names(&c, &p);
    let mut i: usize = 0;
    while i < names.len()
        invariant
            i <= names@.len(),
            text::views(names@) == placeholder_names(template@),
            forall|k: int|
                0 <= k < i ==> !placeholder_changed(
                    #[trigger] placeholder_names(template@)[k],
                    *incoming,
                    *existing,
                    store_content,
                ),
        decreases names.len() - i,
    {
        assert(placeholder_names(template@)[i as int] == names@[i as int]@);
        if has_placeholder_changed(names[i].as_str(), incoming, existing, store_content) {
            return true;
        }
        i += 1;
    }
    false
}

proof fn lemma_same_values(incoming: Document, existing: Document, names: Seq<Seq<char>>)
    requires
        forall|i: int|
            0 <= i < names.len() ==> doc_value(incoming, #[trigger] names[i]) == doc_value(
                existing,
                names[i],
            ),
    ensures
        doc_values(incoming, names) == doc_values(existing, names),
    decreases names.len(),
{
    if names.len() > 0 {
        assert forall|i: int| 0 <= i < names.drop_last().len() implies doc_value(
            incoming,
            #[trigger] names.drop_last()[i],
        ) == doc_value(existing, names.drop_last()[i]) by {
            assert(names.drop_last()[i] == names[i]);
        }
        lemma_same_values(incoming, existing, names.drop_last());
        assert(names[names.len() - 1] == names.last());
    }
}

/// Two versions of a document that do not differ in what a template's
/// placeholders stand for have the same text by it.
pub proof fn unchanged_documents_render_alike(
    template: Seq<char>,
    incoming: Document,
    existing: Document,
)
    requires
        !template_changed(template, incoming, existing, true),
    ensures
        doc_text(template, incoming) == doc_text(template, existing),
{
    let names = placeholder_names(template);
    assert forall|i: int| 0 <= i < names.len() implies doc_value(incoming, #[trigger] names[i])
        == doc_value(existing, names[i]) by {
        assert(!placeholder_changed(names[i], incoming, existing, true));
    }
    lemma_same_values(incoming, existing, names);
}

/// A text with every occurrence of a pattern replaced, from left to right.
pub open spec fn replaced(s: Seq<char>, pattern: Seq<char>, by: Seq<char>) -> Seq<char>
    decreases s.len(),
{
    if pattern.len() == 0 || s.len() == 0 {
        s
    } else if pattern.is_prefix_of(s) {
        by + replaced(s.skip(pattern.len() as int), pattern, by)
    } else {
        seq![s[0]] + replaced(s.drop_first(), pattern, by)
    }
}

/// What a query's template replaces.
pub const QUERY_PLACEHOLDER: &'static str = "{query}";

/// Renders a query's text by a template.
pub fn render_query_template(template: &str, query: &str) -> (r: String)
    ensures
        r@ == replaced(template@, QUERY_PLACEHOLDER@, query@),
{
    let c = chars_of(template);
    let pattern = chars_of(QUERY_PLACEHOLDER);
    let n: usize = c.len();
    let width: usize = pattern.len();
    proof {
        reveal_strlit("{query}");
        assert(pattern@.len() == 7);
    }
    let mut out = empty_text();
    let mut i: usize = 0;
    assert(c@.skip(0) =~= c@);
    assert(out@ + replaced(c@, pattern@, query@) =~= replaced(c@, pattern@, query@));
    while i < n
        invariant
            i <= n,
            n == c@.len(),
            width == pattern@.len(),
            width == 7,
            out@ + replaced(c@.skip(i as int), pattern@, query@) == replaced(
                c@,
                pattern@,
                query@,
            ),
        decreases n - i,
    {
        let ghost s = c@.skip(i as int);
        let here = text::stands_at(&c, &pattern, i);
        proof {
            if pattern@.is_prefix_of(s) {
                assert(c@.subrange(i as int, i + width) =~= pattern@);
            }
            if here {
                assert forall|k: int| 0 <= k < width implies pattern@[k] == s[k] by {
                    assert(c@.subrange(i as int, i + width)[k] == pattern@[k]);
                }
                assert(pattern@.is_prefix_of(s));
            }
        }
        let ghost before = out@;
        if here {
            out.append(query);
            proof {
                assert(s.skip(width as int) =~= c@.skip(i + width));
                assert(before + (query@ + replaced(s.skip(width as int), pattern@, query@))
                    =~= out@ + replaced(c@.skip(i + width), pattern@, query@));
            }
            i += width;
        } else {
            out.push(c[i]);
            proof {
                assert(s.drop_first() =~= c@.skip(i as int + 1));
                assert(before + (seq![s[0]] + replaced(s.drop_first(), pattern@, query@)) =~= out@
                    + replaced(c@.skip(i as int + 1), pattern@, query@));
            }
            i += 1;
        }
    }
    assert(c@.skip(i as int) =~= Seq::empty());
    assert(replaced(c@.skip(i as int), pattern@, query@) =~= Seq::empty());
    assert(out@ =~= replaced(c@, pattern@, query@));
    out
}

/// The names of fields, in quotes.
pub open spec fn quoted_fields(fields: Seq<DocumentField>) -> Seq<Seq<char>> {
    Seq::new(fields.len(), |i: int| "\""@ + fields[i].spec_name() + "\""@)
}

/// The field that a search looks in.
pub open spec fn search_field(config: VectorConfigInternal, field: Option<DocumentField>) -> Result<
    DocumentField,
    Seq<char>,
> {
    if config.doc_template is Some {
        Ok(DocumentField::Template)
    } else {
        match field {
            None => Err(
                "field is required for vector '"@ + config.name@ + "' (not template-based)"@,
            ),
            Some(f) => match index_fields_of(config) {
                Err(e) => Err(e),
                Ok(fields) => if fields.contains(f) {
                    Ok(f)
                } else {
                    Err(
                        "Field '"@ + f.spec_name() + "' is not configured for vector '"@
                            + config.name@ + ("'. Available fields: ["@ + text::join(
                            quoted_fields(fields),
                            ", "@,
                        ) + "]"@),
                    )
                },
            },
        }
    }
}

/// The field that a search looks in: the template, or the one asked for, which
/// the vector must have.
pub fn resolve_search_field(config: &VectorConfigInternal, field: Option<DocumentField>) -> (r:
    Result<DocumentField, String>)
    ensures
        match r {
            Ok(f) => search_field(*config, field) == Ok::<DocumentField, Seq<char>>(f),
            Err(e) => search_field(*config, field) == Err::<DocumentField, Seq<char>>(e@),
        },
{
    if uses_templates(config) {
        return Ok(DocumentField::Template);
    }
    let f = match field {
        Some(f) => f,
        None => {
            return Err(
                text3(
                    "field is required for vector '",
                    config.name.as_str(),
                    "' (not template-based)",
                ),
            );
        },
    };
    let fields = match vector_index_fields(config) {
        Ok(fields) => fields,
        Err(e) => {
            return Err(e);
        },
    };
    let mut quoted: Vec<String> = Vec::new();
    let mut i: usize = 0;
    while i < fields.len()
        invariant
            i <= fields@.len(),
            quoted@.len() == i,
            config.doc_template is None,
            field == Some(f),
            index_fields_of(*config) == Ok::<Seq<DocumentField>, Seq<char>>(fields@),
            forall|k: int| 0 <= k < i ==> fields@[k] != f,
            forall|k: int|
                0 <= k < i ==> (#[trigger] quoted@[k])@ == quoted_fields(fields@)[k],
        decreases fields.len() - i,
    {
        if fields[i] == f {
            assert(fields@[i as int] == f);
            assert(fields@.contains(f));
            return Ok(f);
        }
        quoted.push(text3("\"", fields[i].name(), "\""));
        i += 1;
    }
    assert(text::views(quoted@) =~= quoted_fields(fields@));
    let list = joined(&quoted, ", ");
    let tail = text3("'. Available fields: [", list.as_str(), "]");
    Err(
        text5(
            "Field '",
            f.name(),
            "' is not configured for vector '",
            config.name.as_str(),
            tail.as_str(),
        ),
    )
}

/// A document's template that was accepted renders every document.
pub proof fn accepted_doc_templates_render(template: Seq<char>, document: Document)
    requires
        doc_template_problem(template) is None,
    ensures
        doc_text(template, document) is Ok,
{
    lemma_accepted_values(document, placeholder_names(template));
}

proof fn lemma_accepted_values(document: Document, names: Seq<Seq<char>>)
    requires
        doc_placeholders_problem(names) is None,
    ensures
        doc_values(document, names) is Ok,
    decreases names.len(),
{
    if names.len() > 0 {
        lemma_accepted_each(names, names.len() - 1);
        lemma_accepted_init(names);
        lemma_accepted_values(document, names.drop_last());
    }
}

proof fn lemma_accepted_each(names: Seq<Seq<char>>, i: int)
    requires
        doc_placeholders_problem(names) is None,
        0 <= i < names.len(),
    ensures
        doc_placeholder_problem(names[i]) is None,
    decreases names.len(),
{
    if i > 0 {
        lemma_accepted_each(names.drop_first(), i - 1);
    }
}

proof fn lemma_accepted_init(names: Seq<Seq<char>>)
    requires
        doc_placeholders_problem(names) is None,
        names.len() > 0,
    ensures
        doc_placeholders_problem(names.drop_last()) is None,
    decreases names.len(),
{
    if names.len() > 1 {
        lemma_accepted_init(names.drop_first());
        assert(names.drop_first().drop_last() =~= names.drop_last().drop_first());
        assert(names.drop_last()[0] == names[0]);
    }
}

proof fn lemma_placeholder_found(s: Seq<char>, from: int, i: int)
    requires
        0 <= from <= i,
        placeholder_at(s, i),
    ensures
        exists|k: int|
            0 <= k < placeholders(s, from).len() && (#[trigger] placeholders(s, from)[k]).0 == i,
    decreases s.len() - from,
{
    let all = placeholders(s, from);
    if placeholder_at(s, from) {
        let e = next_brace(s, from + 1);
        lemma_next_brace(s, from + 1);
        if i == from {
            assert(all[0].0 == i);
        } else {
            lemma_placeholder_found(s, e + 1, i);
            let rest = placeholders(s, e + 1);
            let k = choose|k: int| 0 <= k < rest.len() && (#[trigger] rest[k]).0 == i;
            assert(all[k + 1] == rest[k]);
        }
    } else {
        lemma_placeholder_found(s, from + 1, i);
    }
}

proof fn lemma_query_is_placeholder(s: Seq<char>, i: int)
    requires
        text::occurs_at(s, QUERY_PLACEHOLDER@, i),
    ensures
        placeholder_at(s, i),
        next_brace(s, i + 1) == i + 6,
{
    reveal_strlit("{query}");
    let q = QUERY_PLACEHOLDER@;
    assert(q.len() == 7);
    assert forall|k: int| 0 <= k < 7 implies s[i + k] == q[k] by {
        assert(s.subrange(i, i + 7)[k] == q[k]);
    }
    assert(s[i + 0] == q[0] && s[i + 1] == q[1] && s[i + 2] == q[2] && s[i + 3] == q[3] && s[i + 4]
        == q[4] && s[i + 5] == q[5] && s[i + 6] == q[6]);
    assert(next_brace(s, i + 6) == i + 6);
    assert(next_brace(s, i + 5) == i + 6);
    assert(next_brace(s, i + 4) == i + 6);
    assert(next_brace(s, i + 3) == i + 6);
    assert(next_brace(s, i + 2) == i + 6);
    assert(next_brace(s, i + 1) == i + 6);
}

proof fn lemma_nothing_replaced(s: Seq<char>, pattern: Seq<char>, by: Seq<char>, k: int)
    requires
        0 <= k <= s.len(),
        pattern.len() > 0,
        forall|j: int| k <= j ==> !text::occurs_at(s, pattern, j),
    ensures
        replaced(s.skip(k), pattern, by) == s.skip(k),
    decreases s.len() - k,
{
    let t = s.skip(k);
    if t.len() > 0 {
        if pattern.is_prefix_of(t) {
            assert(s.subrange(k, k + pattern.len()) =~= pattern);
            assert(text::occurs_at(s, pattern, k));
        }
        lemma_nothing_replaced(s, pattern, by, k + 1);
        assert(t.drop_first() =~= s.skip(k + 1));
        assert(seq![t[0]] + s.skip(k + 1) =~= t);
    }
}

proof fn lemma_replaced_once(s: Seq<char>, pattern: Seq<char>, by: Seq<char>, k: int, i: int)
    requires
        0 <= k <= i,
        pattern.len() > 0,
        text::occurs_at(s, pattern, i),
        forall|j: int| k <= j && j != i ==> !text::occurs_at(s, pattern, j),
    ensures
        replaced(s.skip(k), pattern, by) == s.subrange(k, i) + by + s.skip(i + pattern.len()),
    decreases i - k,
{
    let t = s.skip(k);
    let n = pattern.len() as int;
    if k == i {
        assert forall|x: int| 0 <= x < n implies pattern[x] == t[x] by {
            assert(s.subrange(i, i + n)[x] == pattern[x]);
        }
        assert(pattern.is_prefix_of(t));
        assert(t.skip(n) =~= s.skip(i + n));
        lemma_nothing_replaced(s, pattern, by, i + n);
        assert(s.subrange(k, i) =~= Seq::empty());
        assert(by + s.skip(i + n) =~= s.subrange(k, i) + by + s.skip(i + n));
    } else {
        if pattern.is_prefix_of(t) {
            assert(s.subrange(k, k + n) =~= pattern);
            assert(text::occurs_at(s, pattern, k));
        }
        lemma_replaced_once(s, pattern, by, k + 1, i);
        assert(t.drop_first() =~= s.skip(k + 1));
        assert(seq![t[0]] + (s.subrange(k + 1, i) + by + s.skip(i + n)) =~= s.subrange(k, i) + by
            + s.skip(i + n));
    }
}

/// A query's template that was accepted holds the query once: what it renders
/// is the template with the query in one place.
pub proof fn accepted_query_templates_hold_one_query(template: Seq<char>, query: Seq<char>)
    requires
        query_template_problem(template) is None,
    ensures
        exists|i: int|
            {
                &&& #[trigger] text::occurs_at(template, QUERY_PLACEHOLDER@, i)
                &&& replaced(template, QUERY_PLACEHOLDER@, query) == template.take(i) + query
                    + template.skip(i + QUERY_PLACEHOLDER@.len())
            },
{
    reveal_strlit("{query}");
    reveal_strlit("query");
    let q = QUERY_PLACEHOLDER@;
    let p = placeholders(template, 0);
    lemma_placeholders_within(template, 0);
    let names = placeholder_names(template);
    assert(names == seq!["query"@]);
    assert(names.len() == 1);
    assert(names.len() == p.len());
    assert(names[0] == "query"@);
    let i = p[0].0;
    let e = p[0].1;
    assert(template.subrange(i + 1, e) == "query"@);
    assert(template.subrange(i + 1, e).len() == e - i - 1);
    assert(e == i + 6);
    assert(template.subrange(i, i + 7) =~= q) by {
        assert forall|k: int| 0 <= k < 7 implies template.subrange(i, i + 7)[k] == q[k] by {
            if 0 < k < 6 {
                assert(template.subrange(i + 1, e)[k - 1] == "query"@[k - 1]);
            }
        }
    }
    assert(text::occurs_at(template, q, i));
    assert forall|j: int| 0 <= j && j != i implies !text::occurs_at(template, q, j) by {
        if text::occurs_at(template, q, j) {
            lemma_query_is_placeholder(template, j);
            lemma_placeholder_found(template, 0, j);
        }
    }
    lemma_replaced_once(template, q, query, 0, i);
    assert(template.skip(0) =~= template);
    assert(template.subrange(0, i) =~= template.take(i));
}

/// Two versions of a document with the same texts, hash and metadata do not
/// differ in what a template's placeholders stand for.
pub proof fn same_values_are_unchanged(
    template: Seq<char>,
    incoming: Document,
    existing: Document,
    store_content: bool,
)
    requires
        text::opt_view(incoming.name) == text::opt_view(existing.name),
        text::opt_view(incoming.description) == text::opt_view(existing.description),
        text::opt_view(incoming.content) == text::opt_view(existing.content),
        text::opt_view(incoming.content_hash) == text::opt_view(existing.content_hash),
        incoming.metadata == existing.metadata,
    ensures
        !template_changed(template, incoming, existing, store_content),
{
}

proof fn lemma_brace_at(s: Seq<char>, i: int, j: int)
    requires
        0 <= i <= j <= s.len(),
        forall|k: int| i <= k < j ==> #[trigger] s[k] != '{' && s[k] != '}',
        j < s.len() ==> s[j] == '{' || s[j] == '}',
    ensures
        next_brace(s, i) == j,
    decreases j - i,
{
    if i < j {
        assert(s[i] != '{' && s[i] != '}');
        lemma_brace_at(s, i + 1, j);
    }
}

proof fn lemma_no_placeholders(s: Seq<char>, from: int)
    requires
        0 <= from <= s.len(),
        forall|k: int| from <= k < s.len() ==> #[trigger] s[k] != '{',
    ensures
        placeholders(s, from) == Seq::<(int, int)>::empty(),
    decreases s.len() - from,
{
    if from < s.len() {
        assert(s[from] != '{');
        lemma_no_placeholders(s, from + 1);
    }
}

proof fn lemma_brace_before_end(t: Seq<char>, s: Seq<char>, i: int)
    requires
        t.is_prefix_of(s),
        0 <= i <= t.len(),
        t.len() < s.len(),
        s[t.len() as int] == '{',
    ensures
        next_brace(s, i) == next_brace(t, i),
        i <= next_brace(t, i) <= t.len(),
        next_brace(t, i) < t.len() ==> s[next_brace(t, i)] == t[next_brace(t, i)],
    decreases t.len() - i,
{
    if i < t.len() {
        assert(s[i] == t[i]);
        if t[i] != '{' && t[i] != '}' {
            lemma_brace_before_end(t, s, i + 1);
        }
    }
}

/// A template with one more placeholder behind it.
pub open spec fn extended(t: Seq<char>, name: Seq<char>, tail: Seq<char>) -> Seq<char> {
    t + seq!['{'] + name + seq!['}'] + tail
}

proof fn lemma_extended(t: Seq<char>, name: Seq<char>, tail: Seq<char>, from: int)
    requires
        name.len() > 0,
        forall|k: int| 0 <= k < name.len() ==> #[trigger] name[k] != '{' && name[k] != '}',
        forall|k: int| 0 <= k < tail.len() ==> #[trigger] tail[k] != '{',
        0 <= from <= t.len(),
    ensures
        placeholders(extended(t, name, tail), from) == placeholders(t, from).push(
            (t.len() as int, t.len() as int + 1 + name.len()),
        ),
    decreases t.len() - from,
{
    let s = extended(t, name, tail);
    let n = t.len() as int;
    let e = n + 1 + name.len();
    assert(t.is_prefix_of(s)) by {
        assert(s.take(n) =~= t);
    }
    assert(s[n] == '{');
    assert(s[e] == '}');
    if from == n {
        assert forall|k: int| n + 1 <= k < e implies #[trigger] s[k] != '{' && s[k] != '}' by {
            assert(s[k] == name[k - n - 1]);
        }
        lemma_brace_at(s, n + 1, e);
        assert forall|k: int| e + 1 <= k < s.len() implies #[trigger] s[k] != '{' by {
            assert(s[k] == tail[k - e - 1]);
        }
        lemma_no_placeholders(s, e + 1);
        assert(placeholders(t, from) =~= Seq::empty());
        assert(placeholders(s, from) =~= placeholders(t, from).push((n, e)));
    } else {
        assert(s[from] == t[from]);
        lemma_brace_before_end(t, s, from + 1);
        let b = next_brace(t, from + 1);
        assert(placeholder_at(s, from) == placeholder_at(t, from));
        if placeholder_at(t, from) {
            lemma_extended(t, name, tail, b + 1);
            assert(placeholders(s, from) =~= placeholders(t, from).push((n, e)));
        } else {
            lemma_extended(t, name, tail, from + 1);
        }
    }
}

proof fn lemma_filled_prefix(
    t: Seq<char>,
    s: Seq<char>,
    p: Seq<(int, int)>,
    values: Seq<Seq<char>>,
)
    requires
        t.is_prefix_of(s),
        spans_within(t, p, 0),
    ensures
        filled(s, p, values) == filled(t, p, values),
    decreases p.len(),
{
    if p.len() > 0 {
        let q = p.drop_last();
        assert(forall|i: int| 0 <= i < q.len() ==> #[trigger] q[i] == p[i]);
        lemma_filled_prefix(t, s, q, values.drop_last());
        let from = if p.len() == 1 {
            0
        } else {
            p[p.len() - 2].1 + 1
        };
        assert(0 <= p[p.len() - 1].0 < t.len());
        if p.len() > 1 {
            assert(p[p.len() - 2].1 < p[p.len() - 1].0);
            assert(0 <= p[p.len() - 2].0);
        }
        assert(s.subrange(from, p.last().0) =~= t.subrange(from, p.last().0)) by {
            assert(forall|k: int| 0 <= k < t.len() ==> #[trigger] s[k] == t[k]);
        }
    }
}

/// Values stand in place of their placeholders: a template with one more
/// placeholder behind it is filled as the template was, with the value of that
/// placeholder and the text behind it at the end. A template without
/// placeholders is filled as it is.
pub proof fn values_stand_in_place_of_placeholders(
    t: Seq<char>,
    name: Seq<char>,
    tail: Seq<char>,
    values: Seq<Seq<char>>,
    value: Seq<char>,
)
    requires
        name.len() > 0,
        forall|k: int| 0 <= k < name.len() ==> #[trigger] name[k] != '{' && name[k] != '}',
        forall|k: int| 0 <= k < tail.len() ==> #[trigger] tail[k] != '{',
        values.len() == placeholder_names(t).len(),
    ensures
        ({
            let s = extended(t, name, tail);
            &&& placeholder_names(s) == placeholder_names(t).push(name)
            &&& with_values(s, placeholders(s, 0), values.push(value)) == with_values(
                t,
                placeholders(t, 0),
                values,
            ) + value + tail
        }),
        with_values(tail, placeholders(tail, 0), Seq::empty()) == tail,
{
    let s = extended(t, name, tail);
    let p = placeholders(t, 0);
    let n = t.len() as int;
    let e = n + 1 + name.len();
    lemma_extended(t, name, tail, 0);
    lemma_no_placeholders(tail, 0);
    lemma_placeholders_within(t, 0);
    let q = p.push((n, e));
    assert(q.drop_last() =~= p);
    assert(values.push(value).drop_last() =~= values);
    assert(s.take(n) =~= t);
    lemma_filled_prefix(t, s, p, values);
    let from = if p.len() == 0 {
        0
    } else {
        p.last().1 + 1
    };
    if p.len() > 0 {
        assert(q[q.len() - 2] == p.last());
        assert(p[p.len() - 1].1 < t.len());
        assert(0 <= p[p.len() - 1].0);
    }
    assert(s.subrange(from, n) =~= t.subrange(from, n)) by {
        assert(forall|k: int| 0 <= k < n ==> #[trigger] s[k] == t[k]);
    }
    assert(s.subrange(e + 1, s.len() as int) =~= tail);
    assert(s.subrange(n + 1, e) =~= name);
    assert(placeholder_names(s) =~= placeholder_names(t).push(name)) by {
        assert forall|i: int| 0 <= i < p.len() implies #[trigger] placeholder_names(s)[i]
            == placeholder_names(t)[i] by {
            assert(q[i] == p[i]);
            assert(0 <= p[i].0 < p[i].1 < t.len());
            assert(s.subrange(p[i].0 + 1, p[i].1) =~= t.subrange(p[i].0 + 1, p[i].1)) by {
                assert(forall|k: int| 0 <= k < n ==> #[trigger] s[k] == t[k]);
            }
        }
    }
    assert(with_values(tail, placeholders(tail, 0), Seq::empty()) =~= tail) by {
        assert(filled(tail, Seq::empty(), Seq::empty()) =~= Seq::empty());
        assert(tail.subrange(0, tail.len() as int) =~= tail);
    }
}

/// A placeholder stands for the text of the document that it names, and for no
/// text where the document has none.
pub proof fn placeholders_stand_for_the_documents_texts(
    document: Document,
    key: Seq<char>,
    m: Vec<(String, JsonValue)>,
)
    ensures
        doc_value(document, "name"@) == Ok::<Seq<char>, Seq<char>>(
            match document.name {
                Some(t) => t@,
                None => Seq::empty(),
            },
        ),
        doc_value(document, "description"@) == Ok::<Seq<char>, Seq<char>>(
            match document.description {
                Some(t) => t@,
                None => Seq::empty(),
            },
        ),
        doc_value(document, "content"@) == Ok::<Seq<char>, Seq<char>>(
            match document.content {
                Some(t) => t@,
                None => Seq::empty(),
            },
        ),
        document.metadata is None ==> doc_value(document, ".meta."@ + key) == Ok::<
            Seq<char>,
            Seq<char>,
        >(Seq::empty()),
        document.metadata == Some(m) ==> doc_value(document, ".meta."@ + key) == Ok::<
            Seq<char>,
            Seq<char>,
        >(
            match json::member(json::members(m@), key) {
                Some(v) => meta_text(v),
                None => Seq::empty(),
            },
        ),
{
    reveal_strlit("name");
    reveal_strlit("description");
    reveal_strlit("content");
    reveal_strlit(".meta.");
    let full = ".meta."@ + key;
    assert(full[0] == '.');
    assert(full.skip(6) =~= key);
    assert("name"@.len() != "description"@.len());
    assert("name"@.len() != "content"@.len());
    assert("description"@.len() != "content"@.len());
}

/// A value of the metadata is written as its text: a text as it is, truth values
/// and numbers as in JSON, a list of such values with a space in between, and
/// anything else as no text.
pub proof fn metadata_is_written_as_text(b: bool, s: Seq<char>, n: JsonNumber, items: Seq<Json>, v: Json)
    ensures
        meta_text(Json::Text(s)) == s,
        meta_text(Json::Bool(b)) == if b {
            "true"@
        } else {
            "false"@
        },
        meta_text(Json::Number(n)) == json_text::number_text(n),
        meta_text(Json::Null) == Seq::<char>::empty(),
        v is Object ==> meta_text(v) == Seq::<char>::empty(),
        (forall|i: int| 0 <= i < items.len() ==> (#[trigger] items[i]) is Text) ==> meta_text(
            Json::Array(items),
        ) == text::join(Seq::new(items.len(), |i: int| items[i]->Text_0), " "@),
        (exists|i: int|
            0 <= i < items.len() && ((#[trigger] items[i]) is Object || items[i] is Array
                || items[i] is Null)) ==> meta_text(Json::Array(items)) == Seq::<char>::empty(),
{
    lemma_scalar_texts(items);
}

proof fn lemma_scalar_texts(items: Seq<Json>)
    ensures
        (forall|i: int| 0 <= i < items.len() ==> (#[trigger] items[i]) is Text) ==> scalar_texts(
            items,
        ) == Some(Seq::new(items.len(), |i: int| items[i]->Text_0)),
        (exists|i: int|
            0 <= i < items.len() && ((#[trigger] items[i]) is Object || items[i] is Array
                || items[i] is Null)) ==> scalar_texts(items) is None,
    decreases items.len(),
{
    if items.len() > 0 {
        let init = items.drop_last();
        lemma_scalar_texts(init);
        assert(forall|i: int| 0 <= i < init.len() ==> #[trigger] init[i] == items[i]);
        assert(items[items.len() - 1] == items.last());
        if forall|i: int| 0 <= i < items.len() ==> (#[trigger] items[i]) is Text {
            let a = Seq::new(init.len(), |i: int| init[i]->Text_0);
            assert(a.push(items.last()->Text_0) =~= Seq::new(
                items.len(),
                |i: int| items[i]->Text_0,
            ));
        }
        if exists|i: int|
            0 <= i < items.len() && ((#[trigger] items[i]) is Object || items[i] is Array
                || items[i] is Null) {
            let i = choose|i: int|
                0 <= i < items.len() && ((#[trigger] items[i]) is Object || items[i] is Array
                    || items[i] is Null);
            if i < init.len() {
                assert(init[i] is Object || init[i] is Array || init[i] is Null);
            }
        }
    } else {
        assert(Seq::new(items.len(), |i: int| items[i]->Text_0) =~= Seq::empty());
    }
}

/// A document whose values are all blank has no text under a template; else the
/// text is the template filled with the values.
pub proof fn blank_documents_have_no_text(
    template: Seq<char>,
    document: Document,
    values: Seq<Seq<char>>,
)
    requires
        doc_values(document, placeholder_names(template)) == Ok::<Seq<Seq<char>>, Seq<char>>(values),
    ensures
        (forall|i: int| 0 <= i < values.len() ==> text::trim(#[trigger] values[i]).len() == 0)
            ==> doc_text(template, document) == Ok::<Seq<char>, Seq<char>>(Seq::empty()),
        (exists|i: int| 0 <= i < values.len() && text::trim(#[trigger] values[i]).len() > 0)
            ==> doc_text(template, document) == Ok::<Seq<char>, Seq<char>>(
            with_values(template, placeholders(template, 0), values),
        ),
{
}

/// A template is accepted for documents exactly if it has a placeholder and each
/// names the name, the description, the content or a plain key of the metadata.
pub proof fn templates_of_documents_name_their_texts(template: Seq<char>)
    ensures
        doc_template_problem(template) is None <==> template.len() > 0 && placeholder_names(
            template,
        ).len() > 0 && forall|i: int|
            0 <= i < placeholder_names(template).len() ==> {
                let n = #[trigger] placeholder_names(template)[i];
                n == "name"@ || n == "description"@ || n == "content"@ || (".meta."@.is_prefix_of(n)
                    && text::is_identifier(n.skip(6)))
            },
{
    reveal_strlit(".meta.");
    let names = placeholder_names(template);
    lemma_each_placeholder(names);
    if doc_template_problem(template) is None {
        assert forall|i: int| 0 <= i < names.len() implies {
            let n = #[trigger] names[i];
            n == "name"@ || n == "description"@ || n == "content"@ || (".meta."@.is_prefix_of(n)
                && text::is_identifier(n.skip(6)))
        } by {
            assert(doc_placeholder_problem(names[i]) is None);
        }
    }
    if forall|i: int|
        0 <= i < names.len() ==> {
            let n = #[trigger] names[i];
            n == "name"@ || n == "description"@ || n == "content"@ || (".meta."@.is_prefix_of(n)
                && text::is_identifier(n.skip(6)))
        } {
        assert forall|i: int| 0 <= i < names.len() implies doc_placeholder_problem(
            #[trigger] names[i],
        ) is None by {}
    }
}

proof fn lemma_each_placeholder(names: Seq<Seq<char>>)
    ensures
        doc_placeholders_problem(names) is None <==> forall|i: int|
            0 <= i < names.len() ==> doc_placeholder_problem(#[trigger] names[i]) is None,
    decreases names.len(),
{
    if names.len() > 0 {
        let rest = names.drop_first();
        lemma_each_placeholder(rest);
        assert(forall|i: int| 0 <= i < rest.len() ==> #[trigger] rest[i] == names[i + 1]);
        if doc_placeholders_problem(names) is None {
            assert forall|i: int| 0 <= i < names.len() implies doc_placeholder_problem(
                #[trigger] names[i],
            ) is None by {
                if i > 0 {
                    assert(rest[i - 1] == names[i]);
                }
            }
        }
    }
}

/// A search looks in the template of a vector that has one, and else in the field
/// that it names, which the vector must have.
pub proof fn searches_look_in_a_field_of_the_vector(
    config: VectorConfigInternal,
    field: DocumentField,
)
    ensures
        config.doc_template is Some ==> search_field(config, None) == Ok::<
            DocumentField,
            Seq<char>,
        >(DocumentField::Template) && search_field(config, Some(field)) == Ok::<
            DocumentField,
            Seq<char>,
        >(DocumentField::Template),
        config.doc_template is None ==> search_field(config, None) is Err,
        config.doc_template is None && (config.index_fields matches Some(fs) && fs@.contains(
            field,
        )) ==> search_field(config, Some(field)) == Ok::<DocumentField, Seq<char>>(field),
        config.doc_template is None && !(config.index_fields matches Some(fs) && fs@.contains(
            field,
        )) ==> search_field(config, Some(field)) is Err,
{
}

/// A vector has a slot for each of its fields, one for its template, or none.
pub proof fn vectors_have_slots_for_their_fields(config: VectorConfigInternal)
    ensures
        config.doc_template is Some ==> config.slots() == seq![DocumentField::Template],
        config.doc_template is None ==> match config.index_fields {
            Some(fs) => config.slots() == fs@,
            None => config.slots().len() == 0,
        },
{
    if let Some(fs) = config.index_fields {
        if fs@.len() == 0 {
            assert(fs@ =~= Seq::empty());
        }
    }
}

} // verus!
