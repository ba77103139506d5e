//! What the environment's variables mean to the server.

use vstd::prelude::*;

use crate::common::AMGIX_VARIANT;
use crate::filter_parser;
use crate::text;
use crate::text::{ascii_lowercase, chars_of, has_char, same_text, text4, trimmed};

verus! {

/// Where the server listens unless told otherwise.
pub const DEFAULT_LISTEN_ADDR: &'static str = "127.0.0.1:8235";

/// The database that the server uses unless told otherwise.
pub const DEFAULT_DATABASE_URL: &'static str = "qdrant://localhost:6334";

/// The directives for the log that a variable stands for.
pub open spec fn log_directives(raw: Option<Seq<char>>) -> Seq<char> {
    match raw {
        None => "info"@,
        Some(s) => {
            let level = text::trim(s);
            let lower = text::ascii_lower(level);
            if level.len() == 0 {
                "info"@
            } else if level.contains('=') {
                level
            } else if lower == "warning"@ {
                "warn"@
            } else if lower == "critical"@ {
                "error"@
            } else {
                lower
            }
        },
    }
}

/// Reads the directives for the log: a level, under one of its names, or
/// directives for parts of the program, which hold a `=`.
pub fn log_env_filter_directives(raw: Option<&str>) -> (r: String)
    ensures
        r@ == log_directives(
            match raw {
                Some(s) => Some(s@),
                None => None,
            },
        ),
{
    let level = match raw {
        Some(s) => trimmed(s),
        None => {
            return "info".to_owned();
        },
    };
    if text::char_count(level.as_str()) == 0 {
        return "info".to_owned();
    }
    if has_char(level.as_str(), '=') {
        return level;
    }
    let lower = ascii_lowercase(level.as_str());
    if same_text(lower.as_str(), "warning") {
        return "warn".to_owned();
    }
    if same_text(lower.as_str(), "critical") {
        return "error".to_owned();
    }
    lower
}

/// Whether a variable says yes.
pub open spec fn says_yes(raw: Option<Seq<char>>) -> bool {
    match raw {
        Some(s) => {
            let lower = text::ascii_lower(text::trim(s));
            lower == "1"@ || lower == "true"@ || lower == "yes"@
        },
        None => false,
    }
}

/// Whether writes wait for the database: where the variable asks for it, and
/// in a cluster, where locks rely on it.
pub fn sync_db_writes(raw: Option<&str>, cluster: bool) -> (r: bool)
    ensures
        r == (cluster || says_yes(
            match raw {
                Some(s) => Some(s@),
                None => None,
            },
        )),
{
    if cluster {
        return true;
    }
    match raw {
        Some(s) => {
            let t = trimmed(s);
            let lower = ascii_lowercase(t.as_str());
            same_text(lower.as_str(), "1") || same_text(lower.as_str(), "true") || same_text(
                lower.as_str(),
                "yes",
            )
        },
        None => false,
    }
}

/// The number that decimal digits stand for, after a plus sign or without one,
/// where it is no more than the most that a size can be.
pub open spec fn read_size(s: Seq<char>) -> Option<int> {
    let digits = if s.len() > 0 && s[0] == '+' {
        s.skip(1)
    } else {
        s
    };
    if filter_parser::all_digits(digits) && filter_parser::digits_value(digits) <= usize::MAX {
        Some(filter_parser::digits_value(digits) as int)
    } else {
        None
    }
}

proof fn lemma_digits_grow(s: Seq<char>, n: int)
    requires
        0 <= n <= s.len(),
    ensures
        filter_parser::digits_value(s.take(n)) <= filter_parser::digits_value(s),
    decreases s.len(),
{
    if n < s.len() {
        assert(s.drop_last().take(n) =~= s.take(n));
        lemma_digits_grow(s.drop_last(), n);
    } else {
        assert(s.take(n) =~= s);
    }
}

/// Reads a size.
pub fn parse_size(s: &str) -> (r: Option<usize>)
    ensures
        match r {
            Some(n) => read_size(s@) == Some(n as int),
            None => read_size(s@) is None,
        },
{
    let cs = chars_of(s);
    let start: usize = if cs.len() > 0 && cs[0] == '+' {
        1
    } else {
        0
    };
    let ghost digits = s@.skip(start as int);
    assert(start == 0 ==> digits =~= s@);
    if start == cs.len() {
        return None;
    }
    let mut value: usize = 0;
    let mut i: usize = start;
    assert(digits.take(0) =~= Seq::empty());
    while i < cs.len()
        invariant
            start <= i <= cs@.len(),
            start <= 1,
            start < cs@.len(),
            cs@ == s@,
            digits == s@.skip(start as int),
            digits == (if s@.len() > 0 && s@[0] == '+' {
                s@.skip(1)
            } else {
                s@
            }),
            forall|k: int| 0 <= k < i - start ==> filter_parser::is_digit(#[trigger] digits[k]),
            value == filter_parser::digits_value(digits.take(i - start)),
        decreases cs.len() - i,
    {
        let c = cs[i];
        assert(digits[i - start] == c);
        if !('0' <= c && c <= '9') {
            assert(!filter_parser::is_digit(digits[i - start]));
            return None;
        }
        let d: usize = (c as u32 - '0' as u32) as usize;
        proof {
            let next = digits.take(i - start + 1);
            assert(next.drop_last() =~= digits.take(i - start));
            assert(next.last() == c);
            lemma_digits_grow(digits, i - start + 1);
        }
        let value10 = match value.checked_mul(10) {
            Some(v) => v,
            None => {
                return None;
            },
        };
        value = match value10.checked_add(d) {
            Some(v) => v,
            None => {
                return None;
            },
        };
        i += 1;
    }
    assert(digits.take(digits.len() as int) =~= digits);
    Some(value)
}

/// The threads that index documents: as many as the variable says, or else half
/// of the processors.
pub fn index_threads(raw: Option<&str>, processors: usize) -> (r: usize)
    ensures
        r == (match raw {
            Some(s) => match read_size(s@) {
                Some(n) => n,
                None => half_at_least_one(processors as int),
            },
            None => half_at_least_one(processors as int),
        }),
{
    if let Some(s) = raw {
        if let Some(n) = parse_size(s) {
            return n;
        }
    }
    if processors / 2 > 1 {
        processors / 2
    } else {
        1
    }
}

/// Half of a number, but at least one.
pub open spec fn half_at_least_one(n: int) -> int {
    if n / 2 > 1 {
        n / 2
    } else {
        1
    }
}

/// The threads that search: as many as the variable says, or else one for each
/// processor, but at least two.
pub fn search_threads(raw: Option<&str>, processors: usize) -> (r: usize)
    ensures
        r == (match raw {
            Some(s) => match read_size(s@) {
                Some(n) => n,
                None => at_least_two(processors as int),
            },
            None => at_least_two(processors as int),
        }),
{
    if let Some(s) = raw {
        if let Some(n) = parse_size(s) {
            return n;
        }
    }
    if processors > 2 {
        processors
    } else {
        2
    }
}

/// A number, but at least two.
pub open spec fn at_least_two(n: int) -> int {
    if n > 2 {
        n
    } else {
        2
    }
}

/// The version as it is shown, with the variant of the server.
pub fn version_text(version: &str) -> (r: String)
    ensures
        r@ == version@ + " ("@ + AMGIX_VARIANT@ + ")"@,
{
    text4(version, " (", AMGIX_VARIANT, ")")
}

/// The level of the log is that which is set, in small letters; two names of other
/// systems are understood, directives stay as they are, and a blank setting means
/// the usual level.
pub proof fn log_levels_are_understood(s: Seq<char>)
    ensures
        log_directives(None) == "info"@,
        text::trim(s).len() == 0 ==> log_directives(Some(s)) == "info"@,
        text::trim(s).len() > 0 && text::trim(s).contains('=') ==> log_directives(Some(s))
            == text::trim(s),
        text::trim(s).len() > 0 && !text::trim(s).contains('=') ==> {
            let level = text::ascii_lower(text::trim(s));
            &&& level == "warning"@ ==> log_directives(Some(s)) == "warn"@
            &&& level == "critical"@ ==> log_directives(Some(s)) == "error"@
            &&& level != "warning"@ && level != "critical"@ ==> log_directives(Some(s)) == level
        },
{
    reveal_strlit("warning");
    reveal_strlit("critical");
    assert("warning"@.len() != "critical"@.len());
}

/// A switch is on exactly if it says one of three words, in letters of any case.
pub proof fn switches_are_on_if_they_say_so(s: Seq<char>)
    ensures
        says_yes(Some(s)) <==> (text::ascii_lower(text::trim(s)) == "1"@ || text::ascii_lower(
            text::trim(s),
        ) == "true"@ || text::ascii_lower(text::trim(s)) == "yes"@),
        !says_yes(None),
{
}

/// A size is read as the number that it writes, with a sign before it or without.
pub proof fn written_sizes_read_back(n: nat, s: Seq<char>)
    ensures
        n <= usize::MAX ==> read_size(text::decimal(n)) == Some(n as int) && read_size(
            seq!['+'] + text::decimal(n),
        ) == Some(n as int),
        n > usize::MAX ==> read_size(text::decimal(n)) is None,
        (exists|i: int| 0 < i < s.len() && !('0' <= #[trigger] s[i] <= '9')) ==> read_size(s)
            is None,
        s.len() == 0 ==> read_size(s) is None,
{
    filter_parser::written_integers_read_back(n as int);
    let d = text::decimal(n);
    assert(filter_parser::all_digits(d));
    assert(filter_parser::is_digit(d[0]));
    assert((seq!['+'] + d).skip(1) =~= d);
    if exists|i: int| 0 < i < s.len() && !('0' <= #[trigger] s[i] <= '9') {
        let i = choose|i: int| 0 < i < s.len() && !('0' <= #[trigger] s[i] <= '9');
        let digits = if s.len() > 0 && s[0] == '+' {
            s.skip(1)
        } else {
            s
        };
        if s[0] == '+' {
            assert(digits[i - 1] == s[i]);
        }
        if filter_parser::all_digits(digits) {
            if s[0] == '+' {
                assert(filter_parser::is_digit(digits[i - 1]));
            } else {
                assert(filter_parser::is_digit(digits[i]));
            }
        }
    }
}

/// Half of the processors index, and at least one thread; all of them search, and
/// at least two threads.
pub proof fn threads_follow_the_processors(n: int)
    requires
        n >= 0,
    ensures
        n >= 4 ==> half_at_least_one(n) == n / 2,
        n < 4 ==> half_at_least_one(n) == 1,
        n >= 2 ==> at_least_two(n) == n,
        n < 2 ==> at_least_two(n) == 2,
{
}

} // verus!
