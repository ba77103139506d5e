//! Text as a sequence of characters: the string operations the rest of the
//! library is built from, each with a statement over `Seq<char>`.

use vstd::prelude::*;

verus! {

/// `String::push` puts one character at the end of the string and leaves the
/// characters before it as they were.
pub assume_specification [ String::push ](s: &mut String, c: char)
    ensures
        final(s)@ == old(s)@.push(c),
;

/// What `str::to_lowercase` makes of a text: the Unicode `Lowercase` mapping,
/// which depends on the text alone.
pub uninterp spec fn unicode_lowercase(s: Seq<char>) -> Seq<char>;

/// Calls `str::to_lowercase`; the result is the lowercase form of `s` under
/// its Unicode mapping.
#[verifier::external_body]
pub(crate) fn lowercase(s: &str) -> (r: String)
    ensures
        r@ == unicode_lowercase(s@),
{
    s.to_lowercase()
}

/// What `{:?}` prints for a text: the text in double quotes with the escapes
/// of `str`'s `Debug` implementation.
pub uninterp spec fn debug_text(s: Seq<char>) -> Seq<char>;

/// Formats `s` with `{:?}`, that is with the `Debug` implementation of `str`.
#[verifier::external_body]
pub(crate) fn debug_format(s: &str) -> (r: String)
    ensures
        r@ == debug_text(s@),
{
    format!("{s:?}")
}

/// The characters of a text, in order.
pub fn chars_of(s: &str) -> (r: Vec<char>)
    ensures
        r@ == s@,
{
    let mut out: Vec<char> = Vec::new();
    for c in it: s.chars()
        invariant
            out@ == s@.take(it.index() as int),
            it.seq() == s@,
    {
        out.push(c);
    }
    out
}

/// The text made of `cs[from..to]`.
pub fn text_between(cs: &Vec<char>, from: usize, to: usize) -> (r: String)
    requires
        from <= to <= cs@.len(),
    ensures
        r@ == cs@.subrange(from as int, to as int),
{
    let mut out: String = String::new();
    let mut i: usize = from;
    while i < to
        invariant
            from <= i <= to <= cs@.len(),
            out@ == cs@.subrange(from as int, i as int),
        decreases to - i,
    {
        out.push(cs[i]);
        i += 1;
    }
    out
}

/// The text made of all of `cs`.
pub fn text_of(cs: &Vec<char>) -> (r: String)
    ensures
        r@ == cs@,
{
    text_between(cs, 0, cs.len())
}

/// Whether two texts hold the same characters.
pub fn same_text(a: &str, b: &str) -> (r: bool)
    ensures
        r == (a@ == b@),
{
    let mut ia = a.chars();
    let mut ib = b.chars();
    let ghost mut n: nat = 0;
    loop
        invariant
            n <= a@.len(),
            n <= b@.len(),
            a@.take(n as int) == b@.take(n as int),
            vstd::std_specs::iter::IteratorSpec::remaining(&ia) == a@.skip(n as int),
            vstd::std_specs::iter::IteratorSpec::remaining(&ib) == b@.skip(n as int),
            vstd::std_specs::iter::IteratorSpec::obeys_prophetic_iter_laws(&ia),
            vstd::std_specs::iter::IteratorSpec::obeys_prophetic_iter_laws(&ib),
        decreases a@.len() - n,
    {
        match (ia.next(), ib.next()) {
            (None, None) => {
                assert(a@.take(n as int) == a@);
                assert(b@.take(n as int) == b@);
                return true;
            },
            (Some(x), Some(y)) => {
                assert(x == a@[n as int]);
                assert(y == b@[n as int]);
                if x != y {
                    return false;
                }
                proof {
                    assert(a@.take(n as int + 1) == a@.take(n as int).push(x));
                    assert(b@.take(n as int + 1) == b@.take(n as int).push(y));
                    assert(a@.skip(n as int).drop_first() == a@.skip(n as int + 1));
                    assert(b@.skip(n as int).drop_first() == b@.skip(n as int + 1));
                    n = n + 1;
                }
            },
            (Some(x), None) => {
                assert(b@.len() == n);
                return false;
            },
            (None, Some(y)) => {
                assert(a@.len() == n);
                return false;
            },
        }
    }
}

/// The views of a sequence of strings.
pub open spec fn views(v: Seq<String>) -> Seq<Seq<char>> {
    Seq::new(v.len(), |i: int| v[i]@)
}

/// The view of an optional string.
pub open spec fn opt_view(s: Option<String>) -> Option<Seq<char>> {
    match s {
        Some(t) => Some(t@),
        None => None,
    }
}

/// `a` followed by `b`.
pub fn text2(a: &str, b: &str) -> (r: String)
    ensures
        r@ == a@ + b@,
{
    let mut s: String = a.to_owned();
    s.append(b);
    s
}

/// `a`, `b` and `c`, one after the other.
pub fn text3(a: &str, b: &str, c: &str) -> (r: String)
    ensures
        r@ == a@ + b@ + c@,
{
    let mut s: String = text2(a, b);
    s.append(c);
    s
}

/// Four texts, one after the other.
pub fn text4(a: &str, b: &str, c: &str, d: &str) -> (r: String)
    ensures
        r@ == a@ + b@ + c@ + d@,
{
    let mut s: String = text3(a, b, c);
    s.append(d);
    s
}

/// Five texts, one after the other.
pub fn text5(a: &str, b: &str, c: &str, d: &str, e: &str) -> (r: String)
    ensures
        r@ == a@ + b@ + c@ + d@ + e@,
{
    let mut s: String = text4(a, b, c, d);
    s.append(e);
    s
}

/// A copy of an optional string.
pub fn opt_text(s: &Option<String>) -> (r: Option<String>)
    ensures
        opt_view(r) == opt_view(*s),
{
    match s {
        Some(t) => Some(t.clone()),
        None => None,
    }
}

/// A copy of a list of strings.
pub fn copy_texts(v: &Vec<String>) -> (r: Vec<String>)
    ensures
        views(r@) == views(v@),
{
    let mut out: Vec<String> = Vec::new();
    let mut i: usize = 0;
    while i < v.len()
        invariant
            i <= v.len(),
            out.len() == i,
            forall|k: int| 0 <= k < i ==> (#[trigger] out@[k])@ == v@[k]@,
        decreases v.len() - i,
    {
        out.push(v[i].clone());
        i += 1;
    }
    assert(views(out@) =~= views(v@));
    out
}

/// Whether `t` is one of the texts of `v`.
pub fn text_in(v: &Vec<String>, t: &str) -> (r: bool)
    ensures
        r == views(v@).contains(t@),
{
    let mut i: usize = 0;
    while i < v.len()
        invariant
            i <= v.len(),
            forall|k: int| 0 <= k < i ==> (#[trigger] v@[k])@ != t@,
        decreases v.len() - i,
    {
        if same_text(v[i].as_str(), t) {
            assert(views(v@)[i as int] == t@);
            return true;
        }
        i += 1;
    }
    assert forall|k: int| 0 <= k < views(v@).len() implies views(v@)[k] != t@ by {
        assert(v@[k]@ != t@);
    }
    false
}

/// The Unicode `White_Space` property.
pub open spec fn is_white_space(c: char) -> bool {
    let n = c as u32;
    ||| 0x09 <= n <= 0x0d
    ||| n == 0x20
    ||| n == 0x85
    ||| n == 0xa0
    ||| n == 0x1680
    ||| 0x2000 <= n <= 0x200a
    ||| n == 0x2028
    ||| n == 0x2029
    ||| n == 0x202f
    ||| n == 0x205f
    ||| n == 0x3000
}

/// Whether `c` is white space.
pub fn white_space(c: char) -> (r: bool)
    ensures
        r == is_white_space(c),
{
    let n: u32 = c as u32;
    (0x09 <= n && n <= 0x0d) || n == 0x20 || n == 0x85 || n == 0xa0 || n == 0x1680 || (0x2000 <= n
        && n <= 0x200a) || n == 0x2028 || n == 0x2029 || n == 0x202f || n == 0x205f || n == 0x3000
}

/// A text without its leading white space.
pub open spec fn trim_start(s: Seq<char>) -> Seq<char>
    decreases s.len(),
{
    if s.len() > 0 && is_white_space(s[0]) {
        trim_start(s.drop_first())
    } else {
        s
    }
}

/// A text without its trailing white space.
pub open spec fn trim_end(s: Seq<char>) -> Seq<char>
    decreases s.len(),
{
    if s.len() > 0 && is_white_space(s.last()) {
        trim_end(s.drop_last())
    } else {
        s
    }
}

/// A text without leading and trailing white space.
pub open spec fn trim(s: Seq<char>) -> Seq<char> {
    trim_end(trim_start(s))
}

proof fn lemma_trim_start_step(s: Seq<char>, i: int)
    requires
        0 <= i < s.len(),
        is_white_space(s[i]),
    ensures
        trim_start(s.skip(i)) == trim_start(s.skip(i + 1)),
{
    assert(s.skip(i).drop_first() =~= s.skip(i + 1));
}

proof fn lemma_trim_end_step(s: Seq<char>, from: int, to: int)
    requires
        0 <= from < to <= s.len(),
        is_white_space(s[to - 1]),
    ensures
        trim_end(s.subrange(from, to)) == trim_end(s.subrange(from, to - 1)),
{
    assert(s.subrange(from, to).drop_last() =~= s.subrange(from, to - 1));
}

/// Removes leading and trailing white space.
pub fn trimmed(s: &str) -> (r: String)
    ensures
        r@ == trim(s@),
{
    let cs = chars_of(s);
    let mut from: usize = 0;
    assert(s@.skip(0) =~= s@);
    while from < cs.len() && white_space(cs[from])
        invariant
            from <= cs@.len(),
            cs@ == s@,
            trim_start(s@) == trim_start(s@.skip(from as int)),
        decreases cs.len() - from,
    {
        proof {
            lemma_trim_start_step(s@, from as int);
        }
        from += 1;
    }
    assert(trim_start(s@) == s@.skip(from as int));
    let mut to: usize = cs.len();
    assert(s@.skip(from as int) =~= s@.subrange(from as int, to as int));
    while from < to && white_space(cs[to - 1])
        invariant
            from <= to <= cs@.len(),
            cs@ == s@,
            trim(s@) == trim_end(s@.subrange(from as int, to as int)),
        decreases to,
    {
        proof {
            lemma_trim_end_step(s@, from as int, to as int);
        }
        to -= 1;
    }
    text_between(&cs, from, to)
}

proof fn lemma_trim_end_shape(s: Seq<char>)
    ensures
        trim_end(s).is_prefix_of(s),
        trim_end(s).len() > 0 ==> !is_white_space(trim_end(s).last()),
    decreases s.len(),
{
    if s.len() > 0 && is_white_space(s.last()) {
        lemma_trim_end_shape(s.drop_last());
    }
}

proof fn lemma_trim_start_shape(s: Seq<char>)
    ensures
        trim_start(s).len() <= s.len(),
        trim_start(s).len() > 0 ==> !is_white_space(trim_start(s)[0]),
    decreases s.len(),
{
    if s.len() > 0 && is_white_space(s[0]) {
        lemma_trim_start_shape(s.drop_first());
    }
}

/// Trimming a trimmed text changes nothing.
pub proof fn trim_is_idempotent(s: Seq<char>)
    ensures
        trim(trim(s)) == trim(s),
{
    lemma_trim_start_shape(s);
    lemma_trim_end_shape(trim_start(s));
}

/// Whether `a` comes before `b` in the order of their characters' code
/// points, a proper prefix first.
pub open spec fn text_precedes(a: Seq<char>, b: Seq<char>) -> bool
    decreases a.len(),
{
    if b.len() == 0 {
        false
    } else if a.len() == 0 {
        true
    } else if a[0] != b[0] {
        a[0] < b[0]
    } else {
        text_precedes(a.drop_first(), b.drop_first())
    }
}

/// No text precedes itself.
pub proof fn text_precedes_irreflexive(a: Seq<char>)
    ensures
        !text_precedes(a, a),
    decreases a.len(),
{
    if a.len() > 0 {
        text_precedes_irreflexive(a.drop_first());
    }
}

/// The order of texts is transitive.
pub proof fn text_precedes_transitive(a: Seq<char>, b: Seq<char>, c: Seq<char>)
    requires
        text_precedes(a, b),
        text_precedes(b, c),
    ensures
        text_precedes(a, c),
    decreases a.len(),
{
    if a.len() > 0 && a[0] == b[0] && b[0] == c[0] {
        text_precedes_transitive(a.drop_first(), b.drop_first(), c.drop_first());
    }
}

/// Of two different texts one precedes the other.
pub proof fn text_precedes_total(a: Seq<char>, b: Seq<char>)
    ensures
        a == b || text_precedes(a, b) || text_precedes(b, a),
    decreases a.len(),
{
    if a.len() > 0 && b.len() > 0 && a[0] == b[0] {
        text_precedes_total(a.drop_first(), b.drop_first());
        if a.drop_first() =~= b.drop_first() {
            assert(a =~= seq![a[0]] + a.drop_first());
            assert(b =~= seq![b[0]] + b.drop_first());
            assert(a == b);
        }
    } else if a.len() == 0 && b.len() == 0 {
        assert(a =~= b);
    }
}

proof fn lemma_precedes_step(a: Seq<char>, b: Seq<char>, i: int)
    requires
        0 <= i < a.len(),
        i < b.len(),
        a[i] == b[i],
    ensures
        text_precedes(a.skip(i), b.skip(i)) == text_precedes(a.skip(i + 1), b.skip(i + 1)),
{
    assert(a.skip(i).drop_first() =~= a.skip(i + 1));
    assert(b.skip(i).drop_first() =~= b.skip(i + 1));
}

/// Whether `a` comes before `b` in the order of their code points.
pub fn text_before(a: &str, b: &str) -> (r: bool)
    ensures
        r == text_precedes(a@, b@),
{
    let ca = chars_of(a);
    let cb = chars_of(b);
    let mut i: usize = 0;
    assert(a@.skip(0) =~= a@);
    assert(b@.skip(0) =~= b@);
    while i < ca.len() && i < cb.len() && ca[i] == cb[i]
        invariant
            i <= ca@.len(),
            i <= cb@.len(),
            ca@ == a@,
            cb@ == b@,
            text_precedes(a@, b@) == text_precedes(a@.skip(i as int), b@.skip(i as int)),
        decreases ca.len() - i,
    {
        proof {
            lemma_precedes_step(a@, b@, i as int);
        }
        i += 1;
    }
    if i >= cb.len() {
        false
    } else if i >= ca.len() {
        true
    } else {
        ca[i] < cb[i]
    }
}

/// The decimal digit for `d`.
pub open spec fn digit_char(d: int) -> char {
    if d == 0 { '0' }
    else if d == 1 { '1' }
    else if d == 2 { '2' }
    else if d == 3 { '3' }
    else if d == 4 { '4' }
    else if d == 5 { '5' }
    else if d == 6 { '6' }
    else if d == 7 { '7' }
    else if d == 8 { '8' }
    else if d == 9 { '9' }
    else if d == 10 { 'a' }
    else if d == 11 { 'b' }
    else if d == 12 { 'c' }
    else if d == 13 { 'd' }
    else if d == 14 { 'e' }
    else { 'f' }
}

fn digit(d: u64) -> (r: char)
    requires
        d < 16,
    ensures
        r == digit_char(d as int),
{
    match d {
        0 => '0',
        1 => '1',
        2 => '2',
        3 => '3',
        4 => '4',
        5 => '5',
        6 => '6',
        7 => '7',
        8 => '8',
        9 => '9',
        10 => 'a',
        11 => 'b',
        12 => 'c',
        13 => 'd',
        14 => 'e',
        _ => 'f',
    }
}

/// `n` in decimal, without leading zeros.
pub open spec fn decimal(n: nat) -> Seq<char>
    decreases n,
{
    if n < 10 {
        seq![digit_char(n as int)]
    } else {
        decimal(n / 10).push(digit_char((n % 10) as int))
    }
}

/// `n` in decimal.
pub fn decimal_text(n: u64) -> (r: String)
    ensures
        r@ == decimal(n as nat),
    decreases n,
{
    let mut s: String = String::new();
    if n >= 10 {
        s = decimal_text(n / 10);
    }
    s.push(digit(n % 10));
    assert(n < 10 ==> s@ =~= seq![digit_char(n as int)]);
    s
}

/// A signed integer in decimal.
pub open spec fn signed_decimal(n: int) -> Seq<char> {
    if n < 0 {
        seq!['-'] + decimal((-n) as nat)
    } else {
        decimal(n as nat)
    }
}

/// `n` in decimal, with `-` in front of a negative number.
pub fn signed_text(n: i64) -> (r: String)
    ensures
        r@ == signed_decimal(n as int),
{
    if n >= 0 {
        decimal_text(n as u64)
    } else {
        let m: u64 = (-(n + 1)) as u64 + 1;
        let mut s: String = String::new();
        s.push('-');
        let d = decimal_text(m);
        s.append(d.as_str());
        assert(s@ =~= seq!['-'] + decimal((-(n as int)) as nat));
        s
    }
}

/// The last `width` hexadecimal digits of `n`, lowercase.
pub open spec fn hex_fixed(n: nat, width: nat) -> Seq<char>
    decreases width,
{
    if width == 0 {
        Seq::empty()
    } else {
        hex_fixed(n / 16, (width - 1) as nat).push(digit_char((n % 16) as int))
    }
}

/// The last `width` hexadecimal digits of `n`, lowercase and padded with zeros.
pub fn hex_text(n: u64, width: u32) -> (r: String)
    ensures
        r@ == hex_fixed(n as nat, width as nat),
    decreases width,
{
    if width == 0 {
        String::new()
    } else {
        let mut s: String = hex_text(n / 16, width - 1);
        s.push(digit(n % 16));
        s
    }
}

/// Whether the text holds the character.
pub fn has_char(s: &str, c: char) -> (r: bool)
    ensures
        r == s@.contains(c),
{
    let cs = chars_of(s);
    let mut i: usize = 0;
    while i < cs.len()
        invariant
            i <= cs@.len(),
            cs@ == s@,
            forall|k: int| 0 <= k < i ==> s@[k] != c,
        decreases cs.len() - i,
    {
        if cs[i] == c {
            return true;
        }
        i += 1;
    }
    false
}

/// Whether `needle` stands in `s` at position `i`.
pub open spec fn occurs_at(s: Seq<char>, needle: Seq<char>, i: int) -> bool {
    &&& 0 <= i
    &&& i + needle.len() <= s.len()
    &&& s.subrange(i, i + needle.len()) == needle
}

/// Whether `needle` stands in `s` at position `i`.
pub fn stands_at(s: &Vec<char>, needle: &Vec<char>, i: usize) -> (r: bool)
    ensures
        r == occurs_at(s@, needle@, i as int),
        r ==> i + needle@.len() <= usize::MAX,
{
    if needle.len() > s.len() || i > s.len() - needle.len() {
        return false;
    }
    let mut k: usize = 0;
    while k < needle.len()
        invariant
            k <= needle.len(),
            i + needle.len() <= s.len(),
            forall|j: int| 0 <= j < k ==> s@[i + j] == needle@[j],
        decreases needle.len() - k,
    {
        if s[i + k] != needle[k] {
            assert(s@.subrange(i as int, i + needle@.len())[k as int] != needle@[k as int]);
            return false;
        }
        k += 1;
    }
    assert(s@.subrange(i as int, i + needle@.len()) =~= needle@);
    true
}

/// Whether `needle` stands anywhere in `s`.
pub open spec fn contains_text(s: Seq<char>, needle: Seq<char>) -> bool {
    exists|i: int| occurs_at(s, needle, i)
}

/// Whether `needle` stands anywhere in `s`.
pub fn has_text(s: &str, needle: &str) -> (r: bool)
    ensures
        r == contains_text(s@, needle@),
{
    let cs = chars_of(s);
    let cn = chars_of(needle);
    let mut i: usize = 0;
    while i <= cs.len()
        invariant
            i <= cs@.len() + 1,
            cs@ == s@,
            cn@ == needle@,
            forall|k: int| 0 <= k < i ==> !occurs_at(s@, needle@, k),
        decreases cs.len() + 1 - i,
    {
        if stands_at(&cs, &cn, i) {
            return true;
        }
        if i == cs.len() {
            assert forall|k: int| !occurs_at(s@, needle@, k) by {}
            return false;
        }
        i += 1;
    }
    false
}

/// The position at which `needle` first stands in `s`.
pub open spec fn first_occurrence(s: Seq<char>, needle: Seq<char>) -> Option<int>
    decreases s.len(),
{
    if occurs_at(s, needle, 0) {
        Some(0)
    } else if s.len() == 0 {
        None
    } else {
        match first_occurrence(s.drop_first(), needle) {
            Some(i) => Some(i + 1),
            None => None,
        }
    }
}

/// Finds where `needle` first stands in `s`.
pub fn find_text(s: &str, needle: &str) -> (r: Option<usize>)
    ensures
        match r {
            Some(i) => first_occurrence(s@, needle@) == Some(i as int) && i + needle@.len()
                <= s@.len(),
            None => first_occurrence(s@, needle@) is None,
        },
{
    let cs = chars_of(s);
    let cn = chars_of(needle);
    let mut i: usize = 0;
    assert(s@.skip(0) =~= s@);
    loop
        invariant
            i <= cs@.len(),
            cs@ == s@,
            cn@ == needle@,
            match first_occurrence(s@.skip(i as int), needle@) {
                Some(k) => first_occurrence(s@, needle@) == Some(i + k),
                None => first_occurrence(s@, needle@) is None,
            },
        decreases cs.len() - i,
    {
        let here = stands_at(&cs, &cn, i);
        proof {
            let rest = s@.skip(i as int);
            if i + needle@.len() <= s@.len() {
                assert(rest.subrange(0, needle@.len() as int) =~= s@.subrange(
                    i as int,
                    i + needle@.len(),
                ));
            }
            assert(occurs_at(rest, needle@, 0) == here);
            if i < s@.len() {
                assert(rest.drop_first() =~= s@.skip(i as int + 1));
            }
        }
        if here {
            return Some(i);
        }
        if i == cs.len() {
            return None;
        }
        i += 1;
    }
}

/// Whether `s` ends with `p`.
pub fn has_suffix(s: &str, p: &str) -> (r: bool)
    ensures
        r == p@.is_suffix_of(s@),
{
    let cs = chars_of(s);
    let cp = chars_of(p);
    if cp.len() > cs.len() {
        return false;
    }
    let at = cs.len() - cp.len();
    let r = stands_at(&cs, &cp, at);
    assert(s@.subrange(at as int, s@.len() as int).len() == p@.len());
    r
}

/// Whether `s` starts with `p`.
pub fn has_prefix(s: &str, p: &str) -> (r: bool)
    ensures
        r == p@.is_prefix_of(s@),
{
    let cs = chars_of(s);
    let cp = chars_of(p);
    let r = stands_at(&cs, &cp, 0);
    proof {
        if p@.is_prefix_of(s@) {
            assert(s@.subrange(0, p@.len() as int) =~= p@);
        }
        if r {
            assert forall|k: int| 0 <= k < p@.len() implies p@[k] == s@[k] by {
                assert(s@.subrange(0, p@.len() as int)[k] == p@[k]);
            }
            assert(p@ =~= s@.subrange(0, p@.len() as int));
        }
    }
    r
}

/// What follows the first `n` characters of `s`.
pub fn text_from(s: &str, n: usize) -> (r: String)
    requires
        n <= s@.len(),
    ensures
        r@ == s@.skip(n as int),
{
    let cs = chars_of(s);
    let r = text_between(&cs, n, cs.len());
    assert(s@.subrange(n as int, s@.len() as int) =~= s@.skip(n as int));
    r
}

/// The number of characters of a text.
pub fn char_count(s: &str) -> (r: usize)
    ensures
        r == s@.len(),
{
    s.unicode_len()
}

/// The position of the first `c` in `s`, or its length when there is none.
pub open spec fn first_index(s: Seq<char>, c: char) -> int
    decreases s.len(),
{
    if s.len() == 0 || s[0] == c {
        0
    } else {
        1 + first_index(s.drop_first(), c)
    }
}

/// `first_index` gives the first position at which the character stands.
pub proof fn first_index_is_first(s: Seq<char>, c: char)
    ensures
        0 <= first_index(s, c) <= s.len(),
        forall|k: int| 0 <= k < first_index(s, c) ==> s[k] != c,
        first_index(s, c) < s.len() ==> s[first_index(s, c)] == c,
    decreases s.len(),
{
    if s.len() > 0 && s[0] != c {
        first_index_is_first(s.drop_first(), c);
        assert forall|k: int| 0 <= k < first_index(s, c) implies s[k] != c by {
            if k > 0 {
                assert(s.drop_first()[k - 1] != c);
            }
        }
    }
}

/// The position of the first `c` in `cs`, or its length when there is none.
pub fn find_char(cs: &Vec<char>, c: char) -> (r: usize)
    ensures
        r == first_index(cs@, c),
        r <= cs@.len(),
{
    proof {
        first_index_is_first(cs@, c);
    }
    let mut i: usize = 0;
    while i < cs.len()
        invariant
            i <= cs@.len(),
            forall|k: int| 0 <= k < i ==> cs@[k] != c,
            0 <= first_index(cs@, c) <= cs@.len(),
            forall|k: int| 0 <= k < first_index(cs@, c) ==> cs@[k] != c,
            first_index(cs@, c) < cs@.len() ==> cs@[first_index(cs@, c)] == c,
        decreases cs.len() - i,
    {
        if cs[i] == c {
            return i;
        }
        i += 1;
    }
    i
}

/// `parts` with `sep` between each two of them.
pub open spec fn join(parts: Seq<Seq<char>>, sep: Seq<char>) -> Seq<char>
    decreases parts.len(),
{
    if parts.len() == 0 {
        Seq::empty()
    } else if parts.len() == 1 {
        parts[0]
    } else {
        join(parts.drop_last(), sep) + sep + parts.last()
    }
}

/// Joins texts with a separator.
pub fn joined(parts: &Vec<String>, sep: &str) -> (r: String)
    ensures
        r@ == join(views(parts@), sep@),
{
    let mut out: String = String::new();
    let mut i: usize = 0;
    assert(views(parts@).take(0) =~= Seq::<Seq<char>>::empty());
    while i < parts.len()
        invariant
            i <= parts.len(),
            out@ == join(views(parts@).take(i as int), sep@),
        decreases parts.len() - i,
    {
        let ghost next = views(parts@).take(i as int + 1);
        assert(next.drop_last() =~= views(parts@).take(i as int));
        assert(next.last() == parts@[i as int]@);
        if i > 0 {
            out.append(sep);
        }
        out.append(parts[i].as_str());
        assert(i == 0 ==> out@ =~= next[0]);
        i += 1;
    }
    assert(views(parts@).take(i as int) =~= views(parts@));
    out
}

/// The pieces of `s` between the occurrences of `c`; a text without `c` is its
/// own only piece.
pub open spec fn split(s: Seq<char>, c: char) -> Seq<Seq<char>>
    decreases s.len(),
{
    let i = first_index(s, c);
    if 0 <= i < s.len() {
        seq![s.take(i)] + split(s.skip(i + 1), c)
    } else {
        seq![s]
    }
}

/// Splits a text at every `c`.
pub fn split_at_char(s: &str, c: char) -> (r: Vec<String>)
    ensures
        views(r@) == split(s@, c),
{
    let cs = chars_of(s);
    let mut out: Vec<String> = Vec::new();
    let mut from: usize = 0;
    let mut i: usize = 0;
    assert(s@.skip(0) =~= s@);
    assert(views(out@) + split(s@, c) =~= split(s@, c));
    while i < cs.len()
        invariant
            from <= i <= cs@.len(),
            cs@ == s@,
            forall|k: int| from <= k < i ==> s@[k] != c,
            views(out@) + split(s@.skip(from as int), c) == split(s@, c),
        decreases cs.len() - i,
    {
        if cs[i] == c {
            proof {
                let rest = s@.skip(from as int);
                first_index_is_first(rest, c);
                assert(rest[i - from] == c);
                assert(first_index(rest, c) == i - from) by {
                    let f = first_index(rest, c);
                    if f < i - from {
                        assert(rest[f] == s@[from + f]);
                    }
                }
                assert(rest.take(i - from) =~= s@.subrange(from as int, i as int));
                assert(rest.skip(i - from + 1) =~= s@.skip(i + 1));
            }
            let piece = text_between(&cs, from, i);
            let ghost before = views(out@);
            out.push(piece);
            proof {
                assert(views(out@) =~= before.push(s@.subrange(from as int, i as int)));
                assert(views(out@) + split(s@.skip(i + 1), c) =~= before + (seq![
                    s@.subrange(from as int, i as int),
                ] + split(s@.skip(i + 1), c)));
            }
            from = i + 1;
        }
        i += 1;
    }
    proof {
        let rest = s@.skip(from as int);
        first_index_is_first(rest, c);
        assert(first_index(rest, c) == rest.len()) by {
            let f = first_index(rest, c);
            if f < rest.len() {
                assert(rest[f] == s@[from + f]);
            }
        }
        assert(rest =~= s@.subrange(from as int, s@.len() as int));
    }
    let piece = text_between(&cs, from, cs.len());
    let ghost before = views(out@);
    out.push(piece);
    assert(views(out@) =~= before + seq![s@.skip(from as int)]);
    out
}

/// The ASCII lowercase form of a character.
pub open spec fn ascii_lower_char(c: char) -> char {
    if 'A' <= c <= 'Z' {
        ((c as u32) + 32) as char
    } else {
        c
    }
}

/// A text with its ASCII capitals turned to lowercase.
pub open spec fn ascii_lower(s: Seq<char>) -> Seq<char> {
    s.map_values(|c: char| ascii_lower_char(c))
}

/// Turns ASCII capitals to lowercase.
pub fn ascii_lowercase(s: &str) -> (r: String)
    ensures
        r@ == ascii_lower(s@),
{
    let cs = chars_of(s);
    let mut out: String = String::new();
    let mut i: usize = 0;
    while i < cs.len()
        invariant
            i <= cs@.len(),
            cs@ == s@,
            out@ == ascii_lower(s@).take(i as int),
        decreases cs.len() - i,
    {
        let c: char = cs[i];
        if 'A' <= c && c <= 'Z' {
            out.push((c as u8 + 32) as char);
        } else {
            out.push(c);
        }
        i += 1;
    }
    assert(ascii_lower(s@).take(i as int) =~= ascii_lower(s@));
    out
}

/// Whether two optional texts are both absent or hold the same characters.
pub fn same_opt_text(a: &Option<String>, b: &Option<String>) -> (r: bool)
    ensures
        r == (opt_view(*a) == opt_view(*b)),
{
    match (a, b) {
        (None, None) => true,
        (Some(x), Some(y)) => same_text(x.as_str(), y.as_str()),
        _ => false,
    }
}

/// Texts with one more put in its place: behind the last one that it does not
/// precede.
pub open spec fn with_text(t: Seq<Seq<char>>, x: Seq<char>) -> Seq<Seq<char>>
    decreases t.len(),
{
    if t.len() > 0 && text_precedes(x, t.last()) {
        with_text(t.drop_last(), x).push(t.last())
    } else {
        t.push(x)
    }
}

/// Texts in ascending order.
pub open spec fn sorted(t: Seq<Seq<char>>) -> Seq<Seq<char>>
    decreases t.len(),
{
    if t.len() == 0 {
        Seq::empty()
    } else {
        with_text(sorted(t.drop_last()), t.last())
    }
}

/// Whether no text precedes an earlier one.
pub open spec fn ascending(t: Seq<Seq<char>>) -> bool {
    forall|i: int, j: int|
        #![trigger t[i], t[j]]
        0 <= i < j < t.len() ==> !text_precedes(t[j], t[i])
}

proof fn lemma_not_precedes_transitive(a: Seq<char>, b: Seq<char>, c: Seq<char>)
    requires
        !text_precedes(a, b),
        !text_precedes(b, c),
    ensures
        !text_precedes(a, c),
{
    text_precedes_total(a, b);
    text_precedes_total(b, c);
    if a != b && b != c {
        text_precedes_transitive(c, b, a);
        if text_precedes(a, c) {
            text_precedes_transitive(a, c, a);
            text_precedes_irreflexive(a);
        }
    }
}

proof fn lemma_with_text(t: Seq<Seq<char>>, x: Seq<char>)
    requires
        ascending(t),
    ensures
        ascending(with_text(t, x)),
        with_text(t, x).to_multiset() == t.to_multiset().insert(x),
        with_text(t, x).len() == t.len() + 1,
        forall|k: int|
            0 <= k < with_text(t, x).len() ==> (#[trigger] with_text(t, x)[k]) == x || t.contains(
                with_text(t, x)[k],
            ),
    decreases t.len(),
{
    t.to_multiset_ensures();
    if t.len() > 0 && text_precedes(x, t.last()) {
        let init = t.drop_last();
        let rest = with_text(init, x);
        assert(ascending(init)) by {
            assert forall|i: int, j: int|
                #![trigger init[i], init[j]]
                0 <= i < j < init.len() implies !text_precedes(init[j], init[i]) by {
                assert(init[i] == t[i] && init[j] == t[j]);
            }
        }
        lemma_with_text(init, x);
        let all = with_text(t, x);
        assert forall|i: int, j: int|
            #![trigger all[i], all[j]]
            0 <= i < j < all.len() implies !text_precedes(all[j], all[i]) by {
            if j == all.len() - 1 {
                assert(rest[i] == x || init.contains(rest[i]));
                if rest[i] == x {
                    if text_precedes(t.last(), x) {
                        text_precedes_transitive(x, t.last(), x);
                        text_precedes_irreflexive(x);
                    }
                } else {
                    let k = choose|k: int| 0 <= k < init.len() && init[k] == rest[i];
                    assert(t[k] == rest[i]);
                    assert(!text_precedes(t[t.len() - 1], t[k]));
                }
            } else {
                assert(all[i] == rest[i] && all[j] == rest[j]);
            }
        }
        init.to_multiset_ensures();
        rest.to_multiset_ensures();
        assert(t =~= init.push(t.last()));
        assert(all.to_multiset() =~= t.to_multiset().insert(x));
        assert forall|k: int| 0 <= k < all.len() implies (#[trigger] all[k]) == x || t.contains(
            all[k],
        ) by {
            if k < rest.len() {
                assert(rest[k] == x || init.contains(rest[k]));
                if init.contains(rest[k]) {
                    let m = choose|m: int| 0 <= m < init.len() && init[m] == rest[k];
                    assert(t[m] == all[k]);
                }
            } else {
                assert(t[t.len() - 1] == all[k]);
            }
        }
    } else {
        let all = t.push(x);
        assert forall|i: int, j: int|
            #![trigger all[i], all[j]]
            0 <= i < j < all.len() implies !text_precedes(all[j], all[i]) by {
            if j == t.len() {
                if i < t.len() - 1 {
                    assert(!text_precedes(t[t.len() - 1], t[i]));
                    lemma_not_precedes_transitive(x, t.last(), t[i]);
                }
            } else {
                assert(all[i] == t[i] && all[j] == t[j]);
            }
        }
        assert forall|k: int| 0 <= k < all.len() implies (#[trigger] all[k]) == x || t.contains(
            all[k],
        ) by {
            if k < t.len() {
                assert(t[k] == all[k]);
            }
        }
    }
}

/// Sorting puts texts in ascending order and neither drops nor adds any.
pub proof fn sorted_is_a_sorted_permutation(t: Seq<Seq<char>>)
    ensures
        ascending(sorted(t)),
        sorted(t).to_multiset() == t.to_multiset(),
        sorted(t).len() == t.len(),
    decreases t.len(),
{
    t.to_multiset_ensures();
    if t.len() > 0 {
        sorted_is_a_sorted_permutation(t.drop_last());
        lemma_with_text(sorted(t.drop_last()), t.last());
        t.drop_last().to_multiset_ensures();
        assert(t =~= t.drop_last().push(t.last()));
    } else {
        assert(sorted(t) =~= t);
    }
}

proof fn lemma_with_text_at(t: Seq<Seq<char>>, x: Seq<char>, p: int)
    requires
        0 <= p <= t.len(),
        forall|k: int| p <= k < t.len() ==> text_precedes(x, #[trigger] t[k]),
        p > 0 ==> !text_precedes(x, t[p - 1]),
    ensures
        with_text(t, x) == t.insert(p, x),
    decreases t.len(),
{
    if p < t.len() {
        assert(text_precedes(x, t[t.len() - 1]));
        lemma_with_text_at(t.drop_last(), x, p);
        assert(t.drop_last().insert(p, x).push(t.last()) =~= t.insert(p, x));
    } else {
        assert(t.insert(p, x) =~= t.push(x));
    }
}

/// Sorts texts in ascending order.
pub fn sort_texts(v: &Vec<String>) -> (r: Vec<String>)
    ensures
        views(r@) == sorted(views(v@)),
{
    let mut out: Vec<String> = Vec::new();
    let mut i: usize = 0;
    assert(views(v@).take(0) =~= Seq::<Seq<char>>::empty());
    assert(views(out@) =~= Seq::<Seq<char>>::empty());
    while i < v.len()
        invariant
            i <= v@.len(),
            views(out@) == sorted(views(v@).take(i as int)),
        decreases v.len() - i,
    {
        let ghost t = views(out@);
        let ghost x = v@[i as int]@;
        let mut p: usize = out.len();
        while p > 0 && text_before(v[i].as_str(), out[p - 1].as_str())
            invariant
                i < v@.len(),
                p <= out@.len(),
                x == v@[i as int]@,
                t == views(out@),
                forall|k: int| p <= k < out@.len() ==> text_precedes(x, #[trigger] t[k]),
            decreases p,
        {
            assert(t[p - 1] == out@[p - 1]@);
            p -= 1;
        }
        proof {
            assert(views(v@).take(i as int + 1).drop_last() =~= views(v@).take(i as int));
            assert(p > 0 ==> t[p - 1] == out@[p - 1]@);
            lemma_with_text_at(t, x, p as int);
        }
        out.insert(p, v[i].clone());
        assert(views(out@) =~= t.insert(p as int, x));
        i += 1;
    }
    assert(views(v@).take(i as int) =~= views(v@));
    out
}

/// Whether a text is made of ASCII letters, digits, underscores and hyphens,
/// and of at least one of them.
pub open spec fn is_identifier(s: Seq<char>) -> bool {
    s.len() > 0 && forall|i: int| 0 <= i < s.len() ==> identifier_char(#[trigger] s[i])
}

pub open spec fn identifier_char(c: char) -> bool {
    ||| 'a' <= c <= 'z'
    ||| 'A' <= c <= 'Z'
    ||| '0' <= c <= '9'
    ||| c == '_'
    ||| c == '-'
}

pub fn is_identifier_char(c: char) -> (r: bool)
    ensures
        r == identifier_char(c),
{
    ('a' <= c && c <= 'z') || ('A' <= c && c <= 'Z') || ('0' <= c && c <= '9') || c == '_' || c
        == '-'
}

/// Whether a text is made of ASCII letters, digits, underscores and hyphens,
/// and of at least one of them.
pub fn identifier(s: &str) -> (r: bool)
    ensures
        r == is_identifier(s@),
{
    let cs = chars_of(s);
    let mut i: usize = 0;
    while i < cs.len()
        invariant
            i <= cs@.len(),
            cs@ == s@,
            forall|k: int| 0 <= k < i ==> identifier_char(#[trigger] s@[k]),
        decreases cs.len() - i,
    {
        if !is_identifier_char(cs[i]) {
            return false;
        }
        i += 1;
    }
    cs.len() > 0
}

/// Texts with `c` before each, one behind the other.
pub open spec fn preceded(parts: Seq<Seq<char>>, c: char) -> Seq<char>
    decreases parts.len(),
{
    if parts.len() == 0 {
        Seq::empty()
    } else {
        seq![c] + parts[0] + preceded(parts.drop_first(), c)
    }
}

/// What is put together with a character is taken apart at it: the pieces are
/// the texts, behind the empty piece before the first character.
pub proof fn split_takes_apart(parts: Seq<Seq<char>>, c: char)
    requires
        forall|i: int| 0 <= i < parts.len() ==> !(#[trigger] parts[i]).contains(c),
    ensures
        split(preceded(parts, c), c) == seq![Seq::<char>::empty()] + parts,
{
    lemma_split_pieces(Seq::empty(), parts, c);
    assert(Seq::<char>::empty() + preceded(parts, c) =~= preceded(parts, c));
}

proof fn lemma_split_pieces(first: Seq<char>, parts: Seq<Seq<char>>, c: char)
    requires
        !first.contains(c),
        forall|i: int| 0 <= i < parts.len() ==> !(#[trigger] parts[i]).contains(c),
    ensures
        split(first + preceded(parts, c), c) == seq![first] + parts,
    decreases parts.len(),
{
    let s = first + preceded(parts, c);
    first_index_is_first(s, c);
    let i = first_index(s, c);
    if parts.len() == 0 {
        assert(s =~= first);
        if i < s.len() {
            assert(first.contains(first[i]));
        }
        assert(seq![first] + parts =~= seq![first]);
    } else {
        let tail = parts.drop_first();
        assert(s[first.len() as int] == c);
        if i < first.len() {
            assert(s[i] == first[i]);
            assert(first.contains(first[i]));
        }
        assert(i == first.len());
        assert(s.take(i) =~= first);
        assert(s.skip(i + 1) =~= parts[0] + preceded(tail, c));
        assert(forall|k: int| 0 <= k < tail.len() ==> #[trigger] tail[k] == parts[k + 1]);
        lemma_split_pieces(parts[0], tail, c);
        assert(seq![first] + (seq![parts[0]] + tail) =~= seq![first] + parts);
    }
}

/// Texts stand for what they hold.
pub proof fn texts_say_their_content(v: Seq<String>, i: int, s: String)
    ensures
        views(v).len() == v.len(),
        0 <= i < v.len() ==> views(v)[i] == v[i]@,
        opt_view(Some(s)) == Some(s@),
        opt_view(None) is None,
{
}

/// A text comes before another exactly if it is a shorter beginning of it, or has
/// the lower character where the two first differ.
pub proof fn texts_are_ordered_by_character(a: Seq<char>, b: Seq<char>, i: int)
    requires
        0 <= i <= a.len(),
        i <= b.len(),
        forall|k: int| 0 <= k < i ==> #[trigger] a[k] == b[k],
    ensures
        i == a.len() && i < b.len() ==> text_precedes(a, b) && !text_precedes(b, a),
        i < a.len() && i < b.len() && a[i] < b[i] ==> text_precedes(a, b)
            && !text_precedes(b, a),
    decreases i,
{
    if i > 0 {
        let x = a.drop_first();
        let y = b.drop_first();
        assert(a[0] == b[0]);
        assert forall|k: int| 0 <= k < i - 1 implies #[trigger] x[k] == y[k] by {
            assert(a[k + 1] == b[k + 1]);
        }
        texts_are_ordered_by_character(x, y, i - 1);
    }
}

/// Trimming takes off white space at both ends and nothing else.
pub proof fn trimming_takes_off_the_ends(before: Seq<char>, s: Seq<char>, after: Seq<char>)
    requires
        forall|i: int| 0 <= i < before.len() ==> is_white_space(#[trigger] before[i]),
        forall|i: int| 0 <= i < after.len() ==> is_white_space(#[trigger] after[i]),
        s.len() > 0,
        !is_white_space(s[0]),
        !is_white_space(s.last()),
    ensures
        trim(before + s + after) == s,
    decreases before.len() + after.len(),
{
    let all = before + s + after;
    if before.len() > 0 {
        assert(all[0] == before[0]);
        assert(all.drop_first() =~= before.drop_first() + s + after);
        trimming_takes_off_the_ends(before.drop_first(), s, after);
    } else {
        assert(all =~= s + after);
        assert(all[0] == s[0]);
        assert(trim_start(all) == all);
        if after.len() > 0 {
            assert(all.last() == after[after.len() - 1]);
            assert(all.drop_last() =~= before + s + after.drop_last());
            trimming_takes_off_the_ends(before, s, after.drop_last());
            let rest = all.drop_last();
            assert(rest[0] == s[0]);
            assert(trim_start(rest) == rest);
        } else {
            assert(all =~= s);
        }
    }
}

/// A text is an identifier exactly if it is one or more letters, digits,
/// underscores and hyphens.
pub proof fn identifiers_are_plain(s: Seq<char>)
    ensures
        is_identifier(s) <==> s.len() > 0 && forall|i: int|
            0 <= i < s.len() ==> ('a' <= #[trigger] s[i] <= 'z' || 'A' <= s[i] <= 'Z' || '0' <= s[i]
                <= '9' || s[i] == '_' || s[i] == '-'),
{
    if is_identifier(s) {
        assert forall|i: int| 0 <= i < s.len() implies ('a' <= #[trigger] s[i] <= 'z' || 'A' <= s[i]
            <= 'Z' || '0' <= s[i] <= '9' || s[i] == '_' || s[i] == '-') by {
            assert(identifier_char(s[i]));
        }
    }
}

/// The first place where a text stands in another is found, if it stands there.
pub proof fn first_occurrences_are_first(s: Seq<char>, needle: Seq<char>, i: int)
    ensures
        first_occurrence(s, needle) matches Some(k) ==> occurs_at(s, needle, k),
        occurs_at(s, needle, i) ==> (first_occurrence(s, needle) matches Some(k) && k <= i),
    decreases s.len(),
{
    if !occurs_at(s, needle, 0) && s.len() > 0 {
        let rest = s.drop_first();
        first_occurrences_are_first(rest, needle, i - 1);
        if let Some(k) = first_occurrence(rest, needle) {
            assert(rest.subrange(k, k + needle.len()) =~= s.subrange(k + 1, k + 1 + needle.len()));
        }
        if occurs_at(s, needle, i) {
            assert(rest.subrange(i - 1, i - 1 + needle.len()) =~= s.subrange(
                i,
                i + needle.len(),
            ));
        }
    } else if s.len() == 0 && occurs_at(s, needle, i) {
        assert(i == 0);
    }
}

/// A text contains another exactly if it is made of a beginning, the other and an
/// end.
pub proof fn texts_contain_their_parts(before: Seq<char>, needle: Seq<char>, after: Seq<char>)
    ensures
        contains_text(before + needle + after, needle),
        occurs_at(before + needle + after, needle, before.len() as int),
{
    let s = before + needle + after;
    assert(s.subrange(before.len() as int, before.len() as int + needle.len()) =~= needle);
    assert(occurs_at(s, needle, before.len() as int));
}

/// Parts are joined with a separator between each two of them.
pub proof fn parts_are_joined_with_separators(
    parts: Seq<Seq<char>>,
    one: Seq<char>,
    sep: Seq<char>,
)
    ensures
        join(Seq::empty(), sep) == Seq::<char>::empty(),
        join(seq![one], sep) == one,
        parts.len() > 0 ==> join(parts.push(one), sep) == join(parts, sep) + sep + one,
{
    assert(parts.push(one).drop_last() =~= parts);
}

/// Only the capitals of the alphabet are made small, each to its own letter.
pub proof fn capitals_are_made_small(s: Seq<char>, i: int)
    requires
        0 <= i < s.len(),
    ensures
        ascii_lower(s).len() == s.len(),
        'A' <= s[i] <= 'Z' ==> ascii_lower(s)[i] as int - 'a' as int == s[i] as int - 'A' as int,
        !('A' <= s[i] <= 'Z') ==> ascii_lower(s)[i] == s[i],
{
}

/// The characters that are white space: tabs and line breaks, spaces of every
/// width, and separators of lines and paragraphs.
pub proof fn white_space_is_known(c: char)
    ensures
        c == ' ' || c == '\t' || c == '\n' || c == '\r' ==> is_white_space(c),
        c as u32 == 0x85 || c as u32 == 0xa0 || c as u32 == 0x2028 || c as u32 == 0x2029 || c as u32
            == 0x3000 ==> is_white_space(c),
        0x2000 <= c as u32 <= 0x200a || c as u32 == 0x202f || c as u32 == 0x205f || c as u32
            == 0x1680 || c as u32 == 0x0b || c as u32 == 0x0c ==> is_white_space(c),
        0x21 <= c as u32 <= 0x7e ==> !is_white_space(c),
        is_white_space(c) && c as u32 > 0xa0 ==> c as u32 == 0x1680 || 0x2000 <= c as u32 <= 0x200a
            || c as u32 == 0x2028 || c as u32 == 0x2029 || c as u32 == 0x202f || c as u32 == 0x205f
            || c as u32 == 0x3000,
{
}

/// A number in digits to the base sixteen is written from the highest digit down,
/// the ten figures first and then the first small letters.
pub proof fn hexadecimal_digits_are_in_place(n: nat, width: nat)
    requires
        width > 0,
    ensures
        hex_fixed(n, width).drop_last() == hex_fixed(n / 16, (width - 1) as nat),
        n % 16 < 10 ==> hex_fixed(n, width).last() as int == '0' as int + n % 16,
        n % 16 >= 10 ==> hex_fixed(n, width).last() as int == 'a' as int + (n % 16 - 10),
{
    let d = (n % 16) as int;
    assert(hex_fixed(n, width).drop_last() =~= hex_fixed(n / 16, (width - 1) as nat));
    assert(hex_fixed(n, width).last() == digit_char(d));
}

} // verus!
