use vstd::prelude::*;

use crate::error::Error;
use crate::globs::string_views;

verus! {

/// What one run analyses and how.
pub struct Options {
    /// The root directories, analysed one after the other.
    pub paths: Vec<String>,
    /// How many of the largest files, and of the largest extensions, to keep.
    pub nums: usize,
    /// Glob patterns: when present, only the paths that one of them matches
    /// count.
    pub glob: Option<Vec<String>>,
    /// No breakdown by extension.
    pub no_ext: bool,
    /// Totals only: no largest files and no breakdown by extension.
    pub summary: bool,
}

/// The patterns of `glob`, as text.
pub open spec fn glob_patterns(glob: Option<Vec<String>>) -> Option<Seq<Seq<char>>> {
    match glob {
        Some(v) => Some(string_views(v@)),
        None => None,
    }
}


/// The command line as given, before any default is applied.
pub struct Args {
    pub paths: Vec<String>,
    /// The count of largest files to show, as typed.
    pub nums: Option<String>,
    /// Comma-separated glob patterns.
    pub glob: Option<String>,
    pub no_ext: bool,
    pub summary: bool,
}

/// The directory analysed when no path is given.
pub const DEFAULT_DIR: &'static str = "./";

/// How many of the largest files are shown when no count is given.
pub const TOP_NUMS: usize = 5;

pub open spec fn is_digit(c: char) -> bool {
    '0' <= c <= '9'
}

/// The value of a string of decimal digits.
pub open spec fn digits_value(s: Seq<char>) -> nat
    decreases s.len(),
{
    if s.len() == 0 {
        0
    } else {
        digits_value(s.drop_last()) * 10 + (s.last() as nat - '0' as nat) as nat
    }
}

/// The digits of a count: the text without one leading `+`.
pub open spec fn count_digits(s: Seq<char>) -> Seq<char> {
    if s.len() > 0 && s[0] == '+' {
        s.drop_first()
    } else {
        s
    }
}

/// Whether `s` reads as a count: an optional `+`, then one or more decimal
/// digits whose value fits in `usize`.
pub open spec fn is_count(s: Seq<char>) -> bool {
    let d = count_digits(s);
    &&& d.len() > 0
    &&& forall|i: int| 0 <= i < d.len() ==> is_digit(#[trigger] d[i])
    &&& digits_value(d) <= usize::MAX
}

/// `s` cut at every `sep`: n separators give n + 1 pieces, empty ones
/// included.
pub open spec fn split_at_sep(s: Seq<char>, sep: char) -> Seq<Seq<char>>
    decreases s.len(),
{
    if s.len() == 0 {
        seq![Seq::<char>::empty()]
    } else {
        let r = split_at_sep(s.drop_last(), sep);
        if s.last() == sep {
            r.push(Seq::<char>::empty())
        } else {
            r.update(r.len() - 1, r.last().push(s.last()))
        }
    }
}

proof fn lemma_split_nonempty(s: Seq<char>, sep: char)
    ensures
        split_at_sep(s, sep).len() >= 1,
    decreases s.len(),
{
    if s.len() > 0 {
        lemma_split_nonempty(s.drop_last(), sep);
    }
}

proof fn lemma_digits_grow(s: Seq<char>, i: int)
    requires
        0 <= i <= s.len(),
    ensures
        digits_value(s.take(i)) <= digits_value(s),
    decreases s.len() - i,
{
    if i < s.len() {
        lemma_digits_grow(s, i + 1);
        assert(s.take(i + 1).drop_last() =~= s.take(i));
    } else {
        assert(s.take(i) =~= s);
    }
}

/// Reads a count of files: an optional `+`, then decimal digits.
pub fn parse_count(s: &str) -> (r: Option<usize>)
    ensures
        r is Some <==> is_count(s@),
        r matches Some(n) ==> n == digits_value(count_digits(s@)),
{
    let len = s.unicode_len();
    let mut start: usize = 0;
    if len > 0 && s.get_char(0) == '+' {
        start = 1;
    }
    let ghost d = count_digits(s@);
    assert(d =~= s@.subrange(start as int, len as int));
    if start == len {
        return None;
    }
    let mut value: usize = 0;
    let mut i: usize = start;
    while i < len
        invariant
            start <= i <= len,
            len == s@.len(),
            d == s@.subrange(start as int, len as int),
            d == count_digits(s@),
            forall|j: int| 0 <= j < i - start ==> is_digit(#[trigger] d[j]),
            value == digits_value(d.take(i - start)),
        decreases len - i,
    {
        let c = s.get_char(i);
        assert(d[i - start] == c);
        if c < '0' || c > '9' {
            assert(!is_digit(d[i - start]));
            return None;
        }
        let digit = (c as u32 - '0' as u32) as usize;
        assert(d.take(i + 1 - start).drop_last() =~= d.take(i - start));
        assert(d.take(i + 1 - start).last() == c);
        assert(digits_value(d.take(i + 1 - start)) == value * 10 + digit);
        if value > (usize::MAX - digit) / 10 {
            proof {
                assert(digits_value(d.take(i + 1 - start)) > usize::MAX) by (nonlinear_arith)
                    requires
                        digits_value(d.take(i + 1 - start)) == value * 10 + digit,
                        value > (usize::MAX - digit) / 10,
                        digit <= 9,
                ;
                lemma_digits_grow(d, i + 1 - start);
            }
            return None;
        }
        assert(value * 10 + digit <= usize::MAX) by (nonlinear_arith)
            requires
                value <= (usize::MAX - digit) / 10,
                digit <= 9,
        ;
        value = value * 10 + digit;
        i = i + 1;
    }
    assert(d.take(len - start) =~= d);
    Some(value)
}

/// Cuts `s` at every comma.
pub fn split_commas(s: &str) -> (r: Vec<String>)
    ensures
        string_views(r@) == split_at_sep(s@, ','),
{
    let len = s.unicode_len();
    let mut parts: Vec<String> = Vec::new();
    let mut cur = String::new();
    let mut i: usize = 0;
    proof {
        assert(s@.take(0) =~= Seq::<char>::empty());
        assert(string_views(parts@).push(cur@) =~= split_at_sep(Seq::<char>::empty(), ','));
    }
    while i < len
        invariant
            i <= len,
            len == s@.len(),
            string_views(parts@).push(cur@) == split_at_sep(s@.take(i as int), ','),
        decreases len - i,
    {
        let ghost t = s@.take(i + 1);
        proof {
            assert(t.drop_last() =~= s@.take(i as int));
            lemma_split_nonempty(s@.take(i as int), ',');
        }
        let c = s.get_char(i);
        if c == ',' {
            let done = cur;
            parts.push(done);
            cur = String::new();
            assert(string_views(parts@).push(cur@) =~= split_at_sep(t, ','));
        } else {
            let ghost before = string_views(parts@).push(cur@);
            let one = s.substring_char(i, i + 1);
            assert(one@ =~= seq![c]);
            cur.append(one);
            assert(cur@ =~= before.last().push(c));
            assert(string_views(parts@).push(cur@) =~= before.update(
                before.len() - 1,
                before.last().push(c),
            ));
        }
        i = i + 1;
    }
    let ghost whole = string_views(parts@).push(cur@);
    parts.push(cur);
    assert(s@.take(len as int) =~= s@);
    assert(string_views(parts@) =~= whole);
    parts
}

impl Options {
    /// Applies the defaults to the command line: the current directory when
    /// no path is given, a count of five when none is, and the glob patterns
    /// cut at commas. A count that is not a number is refused.
    pub fn from_args(args: Args) -> (r: Result<Options, Error>)
        ensures
            (args.nums matches Some(s) && !is_count(s@)) <==> r is Err,
            r is Err ==> (r matches Err(Error::InvalidNumberOfFiles(s)) && args.nums == Some(s)),
            r matches Ok(o) ==> {
                &&& args.paths@.len() == 0 ==> string_views(o.paths@) == seq![DEFAULT_DIR@]
                &&& args.paths@.len() > 0 ==> o.paths@ == args.paths@
                &&& o.nums == match args.nums {
                    Some(s) => digits_value(count_digits(s@)),
                    None => TOP_NUMS as nat,
                }
                &&& (o.glob is Some <==> args.glob is Some)
                &&& (o.glob matches Some(v) ==> string_views(v@) == split_at_sep(
                    args.glob->Some_0@,
                    ',',
                ))
                &&& o.no_ext == args.no_ext
                &&& o.summary == args.summary
            },
    {
        let nums: usize = match &args.nums {
            Some(s) => match parse_count(s.as_str()) {
                Some(n) => n,
                None => {
                    return Err(Error::InvalidNumberOfFiles(s.clone()));
                },
            },
            None => TOP_NUMS,
        };
        let paths = if args.paths.len() == 0 {
            let mut v: Vec<String> = Vec::new();
            v.push(String::from_str(DEFAULT_DIR));
            assert(string_views(v@) =~= seq![DEFAULT_DIR@]);
            v
        } else {
            args.paths
        };
        let glob = match &args.glob {
            Some(g) => Some(split_commas(g.as_str())),
            None => None,
        };
        Ok(Options { paths, nums, glob, no_ext: args.no_ext, summary: args.summary })
    }
}

} // verus!
