//! What the kinds of vectors share: the texts they are made of, tokens, and
//! the choice among weighted tokens.

use vstd::prelude::*;

use crate::indices;
use crate::ingress;
use crate::ingress::group_by_name;
use crate::models::VectorConfigInternal;
use crate::ranking;
use crate::ranking::{sort_ranked, Ranked};
use crate::text;
use crate::text::{chars_of, lowercase, text3, text_of, trimmed, white_space};

verus! {

/// Tokens are below this number, a prime.
pub const TOKEN_HASH_RANGE: u32 = 2147483647;

/// A text with each run of white space as one space.
pub open spec fn collapsed(s: Seq<char>) -> Seq<char>
    decreases s.len(),
{
    if s.len() == 0 {
        Seq::empty()
    } else {
        let rest = collapsed(s.drop_last());
        if !text::is_white_space(s.last()) {
            rest.push(s.last())
        } else if s.len() > 1 && text::is_white_space(s[s.len() - 2]) {
            rest
        } else {
            rest.push(' ')
        }
    }
}

fn collapse(s: &str) -> (r: String)
    ensures
        r@ == collapsed(s@),
{
    let cs = chars_of(s);
    let mut out: Vec<char> = Vec::new();
    let mut prev_space = false;
    let mut i: usize = 0;
    assert(s@.take(0) =~= Seq::empty());
    while i < cs.len()
        invariant
            i <= cs@.len(),
            cs@ == s@,
            out@ == collapsed(s@.take(i as int)),
            prev_space == (i > 0 && text::is_white_space(s@[i - 1])),
        decreases cs.len() - i,
    {
        proof {
            let next = s@.take(i as int + 1);
            assert(next.drop_last() =~= s@.take(i as int));
            assert(next.last() == s@[i as int]);
        }
        let c = cs[i];
        if white_space(c) {
            if !prev_space {
                out.push(' ');
            }
            prev_space = true;
        } else {
            out.push(c);
            prev_space = false;
        }
        i += 1;
    }
    assert(s@.take(s@.len() as int) =~= s@);
    text_of(&out)
}

/// A text in the form in which words are compared: in lower case, without white
/// space around it, and with single spaces inside.
pub fn preprocess_text(s: &str) -> (r: String)
    ensures
        r@ == collapsed(text::trim(text::unicode_lowercase(s@))),
{
    let lowered = lowercase(s);
    let t = trimmed(lowered.as_str());
    collapse(t.as_str())
}

/// The same, in the case that it has.
pub fn preprocess_text_keep_case(s: &str) -> (r: String)
    ensures
        r@ == collapsed(text::trim(s@)),
{
    let t = trimmed(s);
    collapse(t.as_str())
}

/// Whether a text has no white space around it, and only single spaces inside.
pub open spec fn is_tidy(s: Seq<char>) -> bool {
    &&& s.len() > 0 ==> !text::is_white_space(s[0]) && !text::is_white_space(s.last())
    &&& forall|i: int| 0 <= i < s.len() && text::is_white_space(#[trigger] s[i]) ==> s[i] == ' '
    &&& forall|i: int|
        0 < i < s.len() && text::is_white_space(#[trigger] s[i]) ==> !text::is_white_space(s[i - 1])
}

proof fn lemma_collapsed(s: Seq<char>)
    ensures
        collapsed(s).len() <= s.len(),
        s.len() > 0 ==> collapsed(s).len() > 0,
        s.len() > 0 && !text::is_white_space(s[0]) ==> collapsed(s)[0] == s[0],
        s.len() > 0 ==> (text::is_white_space(collapsed(s).last()) <==> text::is_white_space(
            s.last(),
        )),
        forall|i: int|
            0 <= i < collapsed(s).len() && text::is_white_space(#[trigger] collapsed(s)[i])
                ==> collapsed(s)[i] == ' ',
        forall|i: int|
            0 < i < collapsed(s).len() && text::is_white_space(#[trigger] collapsed(s)[i])
                ==> !text::is_white_space(collapsed(s)[i - 1]),
    decreases s.len(),
{
    if s.len() > 0 {
        lemma_collapsed(s.drop_last());
        if s.len() > 1 {
            assert(s.drop_last()[0] == s[0]);
            assert(s.drop_last().last() == s[s.len() - 2]);
        }
    }
}

proof fn lemma_tidy_collapses(s: Seq<char>)
    requires
        forall|i: int|
            0 <= i < s.len() && text::is_white_space(#[trigger] s[i]) ==> s[i] == ' ',
        forall|i: int|
            0 < i < s.len() && text::is_white_space(#[trigger] s[i]) ==> !text::is_white_space(
                s[i - 1],
            ),
    ensures
        collapsed(s) == s,
    decreases s.len(),
{
    if s.len() > 0 {
        let head = s.drop_last();
        assert forall|i: int| 0 <= i < head.len() && text::is_white_space(#[trigger] head[i]) implies
            head[i] == ' ' by {
            assert(s[i] == head[i]);
        }
        assert forall|i: int| 0 < i < head.len() && text::is_white_space(#[trigger] head[i]) implies
            !text::is_white_space(head[i - 1]) by {
            assert(s[i] == head[i]);
        }
        lemma_tidy_collapses(head);
        assert(s =~= head.push(s.last()));
        assert(s[s.len() - 1] == s.last());
    } else {
        assert(collapsed(s) =~= s);
    }
}

proof fn lemma_tidy_is_trimmed(s: Seq<char>)
    requires
        is_tidy(s),
    ensures
        text::trim(s) == s,
{
    if s.len() > 0 {
        assert(text::trim_start(s) == s);
        assert(text::trim_end(s) == s);
    }
}

proof fn lemma_trim_start_bounds(s: Seq<char>)
    ensures
        text::trim_start(s).len() > 0 ==> !text::is_white_space(text::trim_start(s)[0]),
    decreases s.len(),
{
    if s.len() > 0 && text::is_white_space(s[0]) {
        lemma_trim_start_bounds(s.drop_first());
    }
}

proof fn lemma_trim_end_bounds(s: Seq<char>)
    ensures
        text::trim_end(s).len() > 0 ==> !text::is_white_space(text::trim_end(s).last())
            && text::trim_end(s)[0] == s[0],
    decreases s.len(),
{
    if s.len() > 0 && text::is_white_space(s.last()) {
        lemma_trim_end_bounds(s.drop_last());
    }
}

/// A text in the form in which words are compared is tidy, and bringing it into
/// that form again leaves it as it is.
pub proof fn preprocessed_texts_are_tidy(s: Seq<char>)
    ensures
        is_tidy(collapsed(text::trim(s))),
        collapsed(text::trim(collapsed(text::trim(s)))) == collapsed(text::trim(s)),
{
    let t = text::trim(s);
    let c = collapsed(t);
    lemma_trim_start_bounds(s);
    lemma_trim_end_bounds(text::trim_start(s));
    lemma_collapsed(t);
    assert(is_tidy(c));
    lemma_tidy_is_trimmed(c);
    lemma_tidy_collapses(c);
}

/// The 32-bit hash `murmurhash3_x86_32` of some bytes with a seed, as a machine
/// that stores the low byte of a number first computes it.
pub uninterp spec fn murmur3_x86_32(bytes: Seq<u8>, seed: u32) -> u32;

/// Calls `murmurhash3::murmurhash3_x86_32`, a function of the bytes and the
/// seed. It reads four bytes at a time as one number, in the byte order of the
/// machine; the name is for machines that store the low byte first.
#[verifier::external_body]
fn hash_x86_32(bytes: &[u8], seed: u32) -> (r: u32)
    ensures
        r == murmur3_x86_32(bytes@, seed),
{
    murmurhash3::murmurhash3_x86_32(bytes, seed)
}

/// The token of a hash: its distance from zero as a signed number, within the
/// range.
pub open spec fn token_of_hash(hash: u32) -> u32 {
    (if hash < 0x8000_0000 {
        hash as int
    } else {
        0x1_0000_0000 - hash
    } % TOKEN_HASH_RANGE as int) as u32
}

/// Maps a hash to a token.
pub fn hash_token(hash: u32) -> (r: u32)
    ensures
        r == token_of_hash(hash),
        r < TOKEN_HASH_RANGE,
{
    if hash < 0x8000_0000 {
        hash % TOKEN_HASH_RANGE
    } else {
        ((0xffff_ffff - hash) + 1) % TOKEN_HASH_RANGE
    }
}

/// The token of a text.
pub open spec fn token_of(feature: Seq<char>) -> u32 {
    token_of_hash(murmur3_x86_32(vstd::utf8::encode_utf8(feature), 0))
}

/// Gives the token of a text.
pub fn get_token(feature: &str) -> (r: u32)
    ensures
        r == token_of(feature@),
        r < TOKEN_HASH_RANGE,
{
    hash_token(hash_x86_32(feature.as_bytes(), 0))
}

/// Whether there is anything to make a vector of.
pub fn validate_text(s: &str) -> (r: bool)
    ensures
        r == (s@.len() > 0),
{
    text::char_count(s) > 0
}

/// A token and how often its text occurs.
#[derive(Debug, Clone, Copy, PartialEq, Eq, Structural)]
pub struct TokenCount {
    pub token: u32,
    pub count: usize,
}

/// Whether counts are those of texts: one for each of the different texts, in
/// the order in which they first occur.
pub open spec fn counts_texts(texts: Seq<Seq<char>>, groups: Seq<ingress::Group>, counts: Seq<
    TokenCount,
>) -> bool {
    &&& ingress::gathers(texts, texts.len() as int, groups)
    &&& counts.len() == groups.len()
    &&& forall|g: int|
        0 <= g < groups.len() ==> (#[trigger] counts[g]).token == token_of(groups[g].name@)
            && counts[g].count == groups[g].members@.len()
}

/// Counts how often each text occurs.
pub fn count_tokens(texts: &Vec<String>) -> (r: Vec<TokenCount>)
    ensures
        exists|groups: Seq<ingress::Group>| counts_texts(text::views(texts@), groups, r@),
{
    let groups = group_by_name(texts);
    let mut out: Vec<TokenCount> = Vec::new();
    let mut i: usize = 0;
    while i < groups.len()
        invariant
            i <= groups@.len(),
            out@.len() == i,
            forall|g: int|
                0 <= g < i ==> (#[trigger] out@[g]).token == token_of(groups@[g].name@)
                    && out@[g].count == groups@[g].members@.len(),
        decreases groups.len() - i,
    {
        let token = get_token(groups[i].name.as_str());
        out.push(TokenCount { token, count: groups[i].members.len() });
        i += 1;
    }
    assert(counts_texts(text::views(texts@), groups@, out@));
    out
}

/// A token and its weight, a single-precision number by its bits.
#[derive(Debug, Clone, Copy, PartialEq, Eq, Structural)]
pub struct TokenWeight {
    pub token: u32,
    pub weight: u32,
}

/// An integer that grows with the single-precision number of a bit pattern; the
/// two zeros share zero.
pub open spec fn single_rank(bits: u32) -> int {
    if bits >= 0x8000_0000 {
        -(bits - 0x8000_0000)
    } else {
        bits as int
    }
}

fn rank_of(bits: u32) -> (r: i64)
    ensures
        r == single_rank(bits),
{
    if bits >= 0x8000_0000 {
        -((bits - 0x8000_0000) as i64)
    } else {
        bits as i64
    }
}

impl Ranked for TokenWeight {
    /// By weight, the largest first.
    open spec fn precedes(&self, other: &Self) -> bool {
        single_rank(self.weight) > single_rank(other.weight)
    }

    proof fn precedes_asymmetric(a: &Self, b: &Self) {
    }

    proof fn not_precedes_transitive(a: &Self, b: &Self, c: &Self) {
    }

    fn before(&self, other: &Self) -> (r: bool) {
        rank_of(self.weight) > rank_of(other.weight)
    }
}

/// Whether tokens with their weights are the first `k` of `all`, the heaviest
/// first.
pub open spec fn is_heaviest(
    all: Seq<TokenWeight>,
    sorted: Seq<TokenWeight>,
    k: int,
    tokens: Seq<u32>,
    weights: Seq<u32>,
) -> bool {
    let n = if k < all.len() {
        k
    } else {
        all.len() as int
    };
    &&& ranking::in_rank_order(sorted)
    &&& sorted.to_multiset() == all.to_multiset()
    &&& sorted.len() == all.len()
    &&& tokens == Seq::new(n as nat, |i: int| sorted[i].token)
    &&& weights == Seq::new(n as nat, |i: int| sorted[i].weight)
}

/// The heaviest tokens, at most `k` of them, with their weights. Where weights
/// are the same, which token stays is not said.
pub fn top_k(token_weights: Vec<TokenWeight>, k: usize) -> (r: (Vec<u32>, Vec<u32>))
    ensures
        exists|sorted: Seq<TokenWeight>|
            is_heaviest(token_weights@, sorted, k as int, r.0@, r.1@),
{
    let ghost all = token_weights@;
    let sorted = sort_ranked(token_weights);
    let n = if k < sorted.len() {
        k
    } else {
        sorted.len()
    };
    let mut tokens: Vec<u32> = Vec::new();
    let mut weights: Vec<u32> = Vec::new();
    let mut i: usize = 0;
    while i < n
        invariant
            i <= n <= sorted@.len(),
            tokens@ == Seq::new(i as nat, |j: int| sorted@[j].token),
            weights@ == Seq::new(i as nat, |j: int| sorted@[j].weight),
        decreases n - i,
    {
        tokens.push(sorted[i].token);
        weights.push(sorted[i].weight);
        i += 1;
        assert(tokens@ =~= Seq::new(i as nat, |j: int| sorted@[j].token));
        assert(weights@ =~= Seq::new(i as nat, |j: int| sorted@[j].weight));
    }
    let r = (tokens, weights);
    assert(is_heaviest(all, sorted@, k as int, r.0@, r.1@));
    r
}

/// No token that is left out weighs more than one that is kept.
pub proof fn kept_tokens_are_heaviest(
    all: Seq<TokenWeight>,
    sorted: Seq<TokenWeight>,
    k: int,
    tokens: Seq<u32>,
    weights: Seq<u32>,
    i: int,
    j: int,
)
    requires
        is_heaviest(all, sorted, k, tokens, weights),
        0 <= k,
        0 <= i < weights.len() <= j < sorted.len(),
    ensures
        single_rank(sorted[j].weight) <= single_rank(weights[i]),
        weights.len() <= k,
{
    assert(weights[i] == sorted[i].weight);
    assert(!sorted[j].precedes(&sorted[i]));
}

/// The positions at which an index stands.
#[derive(Debug, PartialEq, Eq)]
pub struct IndexGroup {
    pub index: u32,
    pub members: Vec<usize>,
}

/// Whether one of the groups has the index.
pub open spec fn has_index(groups: Seq<IndexGroup>, index: u32) -> bool {
    exists|g: int| 0 <= g < groups.len() && (#[trigger] groups[g]).index == index
}

/// Whether groups gather the first `n` positions of a list by what stands
/// there.
pub open spec fn gathers_indices(list: Seq<u32>, n: int, groups: Seq<IndexGroup>) -> bool {
    &&& forall|g: int, h: int|
        #![trigger groups[g], groups[h]]
        0 <= g < h < groups.len() ==> groups[g].index != groups[h].index
    &&& forall|g: int|
        0 <= g < groups.len() ==> indices::positions((#[trigger] groups[g]).members@)
            == indices::picked(n, |i: int| list[i] == groups[g].index)
    &&& forall|i: int| 0 <= i < n ==> has_index(groups, #[trigger] list[i])
}

/// Gathers the positions of a sparse vector by index: the values at the
/// positions of one index are to be summed. Positions without a value do not
/// count.
pub fn dedup_sparse(list: &Vec<u32>, values: usize) -> (r: Vec<IndexGroup>)
    ensures
        gathers_indices(
            list@,
            if values < list@.len() {
                values as int
            } else {
                list@.len() as int
            },
            r@,
        ),
{
    let n = if values < list.len() {
        values
    } else {
        list.len()
    };
    let mut groups: Vec<IndexGroup> = Vec::new();
    let mut i: usize = 0;
    while i < n
        invariant
            i <= n <= list@.len(),
            gathers_indices(list@, i as int, groups@),
        decreases n - i,
    {
        let x = list[i];
        let ghost before = groups@;
        let mut at: usize = 0;
        while at < groups.len() && groups[at].index != x
            invariant
                at <= groups@.len(),
                groups@ == before,
                forall|g: int| 0 <= g < at ==> (#[trigger] groups@[g]).index != x,
            decreases groups.len() - at,
        {
            at += 1;
        }
        if at == groups.len() {
            let mut members: Vec<usize> = Vec::new();
            members.push(i);
            groups.push(IndexGroup { index: x, members });
            proof {
                assert forall|k: int| 0 <= k < i implies list@[k] != x by {
                    assert(has_index(before, list@[k]));
                }
                indices::none_picked(i as int, |k: int| list@[k] == x);
            }
        } else {
            groups[at].members.push(i);
        }
        proof {
            let after = groups@;
            assert forall|g: int| 0 <= g < after.len() implies indices::positions(
                (#[trigger] after[g]).members@,
            ) == indices::picked(i + 1, |k: int| list@[k] == after[g].index) by {
                let p = |k: int| list@[k] == after[g].index;
                if g < before.len() {
                    assert(before[g].index == after[g].index);
                    indices::same_picks(i as int, |k: int| list@[k] == before[g].index, p);
                    if g == at {
                        assert(indices::positions(after[g].members@) =~= indices::positions(
                            before[g].members@,
                        ).push(i as int));
                    } else {
                        assert(after[g] == before[g]);
                    }
                } else {
                    assert(indices::positions(after[g].members@) =~= seq![i as int]);
                    indices::same_picks(i as int, |k: int| list@[k] == x, p);
                }
            }
            assert forall|k: int| 0 <= k < i + 1 implies has_index(after, #[trigger] list@[k]) by {
                if k < i {
                    assert(has_index(before, list@[k]));
                    let g = choose|g: int|
                        0 <= g < before.len() && (#[trigger] before[g]).index == list@[k];
                    assert(after[g].index == list@[k]);
                } else {
                    assert(after[at as int].index == x);
                }
            }
            assert forall|g: int, h: int|
                #![trigger after[g], after[h]]
                0 <= g < h < after.len() implies after[g].index != after[h].index by {
                if h < before.len() {
                    assert(before[g].index == after[g].index);
                    assert(before[h].index == after[h].index);
                } else {
                    assert(before[g].index == after[g].index);
                }
            }
        }
        i += 1;
    }
    groups
}

/// The language of a vector's texts: the one of its configuration.
pub fn get_language_code(config: &VectorConfigInternal) -> (r: Result<String, String>)
    ensures
        if config.language_default_code@.len() > 0 {
            r matches Ok(code) && code@ == config.language_default_code@
        } else {
            r matches Err(e) && e@ == "No language code could be determined for vector config '"@
                + config.name@
                + "'. Either enable language_detect=True or specify language_default_code."@
        },
{
    if text::char_count(config.language_default_code.as_str()) > 0 {
        return Ok(config.language_default_code.as_str().to_owned());
    }
    Err(
        text3(
            "No language code could be determined for vector config '",
            config.name.as_str(),
            "'. Either enable language_detect=True or specify language_default_code.",
        ),
    )
}

/// A run of white space becomes one space, and everything else stays.
pub proof fn runs_of_white_space_become_one_space(s: Seq<char>, c: char)
    ensures
        collapsed(Seq::empty()) == Seq::<char>::empty(),
        !text::is_white_space(c) ==> collapsed(s.push(c)) == collapsed(s).push(c),
        text::is_white_space(c) && (s.len() == 0 || !text::is_white_space(s.last())) ==> collapsed(
            s.push(c),
        ) == collapsed(s).push(' '),
        text::is_white_space(c) && s.len() > 0 && text::is_white_space(s.last()) ==> collapsed(
            s.push(c),
        ) == collapsed(s),
{
    assert(s.push(c).drop_last() =~= s);
    if s.len() > 0 {
        assert(s.push(c)[s.len() - 1] == s.last());
    }
}

/// A token is the magnitude of its hash as a signed number, within the range of
/// tokens.
pub proof fn tokens_are_magnitudes_of_hashes(hash: u32)
    ensures
        hash < 0x7fff_ffff ==> token_of_hash(hash) == hash,
        hash == 0x7fff_ffff ==> token_of_hash(hash) == 0,
        hash == 0x8000_0000 ==> token_of_hash(hash) == 1,
        0x8000_0001 < hash ==> token_of_hash(hash) == 0x1_0000_0000 - hash,
        token_of_hash(hash) < 2147483647,
{
}

/// Weights are in the order of the numbers that they are: of two without the sign
/// bit that with the larger bits is larger, and any with it is not above zero.
pub proof fn weights_are_ordered(a: u32, b: u32)
    ensures
        a < 0x8000_0000 && b < 0x8000_0000 ==> (single_rank(a) < single_rank(b) <==> a < b),
        a >= 0x8000_0000 && b >= 0x8000_0000 ==> (single_rank(a) < single_rank(b) <==> a > b),
        a >= 0x8000_0000 && b < 0x8000_0000 ==> single_rank(a) <= 0 <= single_rank(b),
{
}

/// As many tokens are kept as may be, with their own weights, the heaviest first.
pub proof fn kept_tokens_have_their_weights(
    all: Seq<TokenWeight>,
    sorted: Seq<TokenWeight>,
    k: int,
    tokens: Seq<u32>,
    weights: Seq<u32>,
    i: int,
)
    requires
        is_heaviest(all, sorted, k, tokens, weights),
        0 <= k,
    ensures
        tokens.len() == weights.len(),
        k <= all.len() ==> tokens.len() == k,
        k > all.len() ==> tokens.len() == all.len(),
        0 <= i < tokens.len() ==> exists|j: int|
            0 <= j < all.len() && (#[trigger] all[j]).token == tokens[i] && all[j].weight
                == weights[i],
        0 < i < tokens.len() ==> single_rank(weights[i]) <= single_rank(weights[i - 1]),
{
    ranking::same_elements(sorted, all);
    if 0 <= i < tokens.len() {
        assert(all.contains(sorted[i]));
        let j = choose|j: int| 0 <= j < all.len() && all[j] == sorted[i];
        assert(all[j].token == tokens[i]);
        if i > 0 {
            assert(!sorted[i].precedes(&sorted[i - 1]));
        }
    }
}

/// The entries of one index are gathered, and only they.
pub proof fn entries_are_gathered_by_index(
    list: Seq<u32>,
    n: int,
    groups: Seq<IndexGroup>,
    g: int,
    i: int,
)
    requires
        gathers_indices(list, n, groups),
        0 <= n <= list.len(),
        0 <= g < groups.len(),
        0 <= i < n,
    ensures
        indices::positions(groups[g].members@).contains(i) <==> list[i] == groups[g].index,
        exists|h: int| 0 <= h < groups.len() && (#[trigger] groups[h]).index == list[i],
{
    let p = |i: int| list[i] == groups[g].index;
    indices::picked_is_exact(n, p);
    assert(has_index(groups, list[i]));
}

/// A text is counted under its token as often as it stands there.
pub proof fn texts_are_counted(
    texts: Seq<Seq<char>>,
    groups: Seq<ingress::Group>,
    counts: Seq<TokenCount>,
    g: int,
)
    requires
        counts_texts(texts, groups, counts),
        0 <= g < counts.len(),
    ensures
        counts[g].token == token_of(groups[g].name@),
        counts[g].count == indices::picked(
            texts.len() as int,
            |i: int| texts[i] == groups[g].name@,
        ).len(),
{
    assert(counts[g].token == token_of(groups[g].name@));
    assert(indices::positions(groups[g].members@).len() == groups[g].members@.len());
}

} // verus!
