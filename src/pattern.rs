use vstd::prelude::*;
use vstd::std_specs::iter::IteratorSpec;

verus! {

broadcast use vstd::string::axiom_spec_iter, vstd::string::next_postcondition;

#[verifier::external_type_specification]
#[verifier::external_body]
pub struct ExPcre2Error(pcre2::Error);

/// What compiling a PCRE2 expression with the given options and searching a
/// subject with it gives: `Some(found)`, or `None` where the expression does
/// not compile or the search fails.
pub uninterp spec fn pcre2_search(
    body: Seq<char>,
    caseless: bool,
    dotall: bool,
    multi_line: bool,
    subject: Seq<u8>,
) -> Option<bool>;

/// Relies on pcre2::bytes::RegexBuilder::build and pcre2::bytes::Regex::is_match:
/// the outcome of compiling `body` with the three options and searching
/// `subject` depends on those values alone.
#[verifier::external_body]
fn regex_search(
    body: &Vec<char>,
    caseless: bool,
    dotall: bool,
    multi_line: bool,
    subject: &[u8],
) -> (r: Result<bool, pcre2::Error>)
    ensures
        match r {
            Ok(found) => pcre2_search(body@, caseless, dotall, multi_line, subject@) == Some(found),
            Err(_) => pcre2_search(body@, caseless, dotall, multi_line, subject@) is None,
        },
{
    let source: String = body.iter().collect();
    let re = pcre2::bytes::RegexBuilder::new()
        .caseless(caseless)
        .dotall(dotall)
        .multi_line(multi_line)
        .build(&source)?;
    re.is_match(subject)
}

/// The characters of a string.
fn chars_of(s: &str) -> (r: Vec<char>)
    ensures
        r@ == s@,
{
    let mut it = s.chars();
    let mut out: Vec<char> = Vec::new();
    loop
        invariant
            out@ + it.remaining() == s@,
            it.decrease() is Some,
        ensures
            out@ == s@,
        decreases it.decrease()->0,
    {
        match it.next() {
            Some(c) => {
                out.push(c);
            },
            None => {
                break;
            },
        }
    }
    out
}

/// A delimiter that may open and close an nmap pattern.
pub open spec fn is_delimiter(c: char) -> bool {
    c == '|' || c == '/' || c == '=' || c == '@' || c == '%'
}

/// The pattern with one leading `m` dropped, if it has one.
pub open spec fn unprefixed(p: Seq<char>) -> Seq<char> {
    if p.len() > 0 && p[0] == 'm' {
        p.drop_first()
    } else {
        p
    }
}

/// `k` is the position of the closing delimiter in `q`, whose first character
/// is the opening one: the last place after position 1 that holds it again.
pub open spec fn is_last_closing(q: Seq<char>, k: int) -> bool {
    &&& 2 <= k < q.len()
    &&& q[k] == q[0]
    &&& forall|j: int| k < j < q.len() ==> #[trigger] q[j] != q[0]
}

/// What a pattern in nmap's dialect stands for: the expression body and the
/// flags `i` (caseless), `s` (dot matches newline) and `m` (multi-line); or
/// `None` where a recognised delimiter is never closed. A pattern that does
/// not open with a recognised delimiter is a raw expression without flags.
pub open spec fn spec_parse(p: Seq<char>) -> Option<(Seq<char>, bool, bool, bool)> {
    let q = unprefixed(p);
    if q.len() == 0 || !is_delimiter(q[0]) {
        Some((q, false, false, false))
    } else if exists|k: int| is_last_closing(q, k) {
        let k = choose|k: int| is_last_closing(q, k);
        let flags = q.subrange(k + 1, q.len() as int);
        Some((q.subrange(1, k), flags.contains('i'), flags.contains('s'), flags.contains('m')))
    } else {
        None
    }
}

/// Whether `pattern`, in nmap's dialect, matches `subject`: it must parse,
/// compile, and find a match; a failure at any step is no match.
pub open spec fn pattern_matches(pattern: Seq<char>, subject: Seq<u8>) -> bool {
    match spec_parse(pattern) {
        Some((body, caseless, dotall, multi_line)) => pcre2_search(
            body,
            caseless,
            dotall,
            multi_line,
            subject,
        ) == Some(true),
        None => false,
    }
}

/// A PCRE2 expression and the options that nmap's flag letters ask for.
pub struct RegexSource {
    pub body: Vec<char>,
    pub caseless: bool,
    pub dotall: bool,
    pub multi_line: bool,
}

impl View for RegexSource {
    type V = (Seq<char>, bool, bool, bool);

    open spec fn view(&self) -> (Seq<char>, bool, bool, bool) {
        (self.body@, self.caseless, self.dotall, self.multi_line)
    }
}

/// The characters of `v` in `lo..hi`.
fn copy_range(v: &Vec<char>, lo: usize, hi: usize) -> (r: Vec<char>)
    requires
        lo <= hi <= v@.len(),
    ensures
        r@ == v@.subrange(lo as int, hi as int),
{
    let mut out: Vec<char> = Vec::new();
    let mut i: usize = lo;
    while i < hi
        invariant
            lo <= i <= hi <= v@.len(),
            out@ == v@.subrange(lo as int, i as int),
        decreases hi - i,
    {
        out.push(v[i]);
        i = i + 1;
        assert(out@ =~= v@.subrange(lo as int, i as int));
    }
    out
}

/// Whether `c` occurs in `v` within `lo..hi`.
fn range_contains(v: &Vec<char>, lo: usize, hi: usize, c: char) -> (r: bool)
    requires
        lo <= hi <= v@.len(),
    ensures
        r == v@.subrange(lo as int, hi as int).contains(c),
{
    let mut i: usize = lo;
    while i < hi
        invariant
            lo <= i <= hi <= v@.len(),
            forall|j: int| lo <= j < i ==> v@[j] != c,
        decreases hi - i,
    {
        if v[i] == c {
            assert(v@.subrange(lo as int, hi as int)[i - lo] == c);
            return true;
        }
        i = i + 1;
    }
    proof {
        let sub = v@.subrange(lo as int, hi as int);
        assert forall|j: int| 0 <= j < sub.len() implies sub[j] != c by {
            assert(sub[j] == v@[lo + j]);
        }
    }
    false
}

/// Splits a pattern of nmap's dialect into its expression and flags.
///
/// An optional leading `m` is dropped. Where the next character is one of
/// `| / = @ %`, the expression runs to the last later occurrence of that
/// character, and the letters after it are flags (`i`, `s`, `m`; others are
/// ignored); without such an occurrence the pattern is malformed and `None`
/// comes back. Any other pattern is a raw expression without flags.
pub fn parse_pattern(pattern: &str) -> (r: Option<RegexSource>)
    ensures
        match spec_parse(pattern@) {
            Some(parts) => r matches Some(src) && src@ == parts,
            None => r is None,
        },
{
    let p = chars_of(pattern);
    let n = p.len();
    let start: usize = if n > 0 && p[0] == 'm' {
        1
    } else {
        0
    };
    let ghost q = unprefixed(pattern@);
    assert(q =~= p@.subrange(start as int, n as int));
    if start >= n || !(p[start] == '|' || p[start] == '/' || p[start] == '=' || p[start] == '@'
        || p[start] == '%') {
        let body = copy_range(&p, start, n);
        return Some(RegexSource { body, caseless: false, dotall: false, multi_line: false });
    }
    let d = p[start];
    let mut k: usize = n;
    while k > start + 2
        invariant
            start <= 1,
            start < n == p@.len(),
            k <= n,
            q == p@.subrange(start as int, n as int),
            q == unprefixed(pattern@),
            p@ == pattern@,
            is_delimiter(d),
            d == p@[start as int],
            forall|j: int| k <= j < n ==> p@[j] != d,
        decreases k,
    {
        k = k - 1;
        if p[k] == d {
            let ghost kq = (k - start) as int;
            assert(is_last_closing(q, kq));
            assert forall|k2: int| is_last_closing(q, k2) implies k2 == kq by {
                if k2 < kq {
                    assert(q[kq] == q[0]);
                } else if k2 > kq {
                    assert(q[k2] == p@[start + k2]);
                }
            }
            let body = copy_range(&p, start + 1, k);
            assert(body@ =~= q.subrange(1, kq));
            let ghost flags = q.subrange(kq + 1, q.len() as int);
            assert(flags =~= p@.subrange(k + 1, n as int));
            assert(q.len() > 0 && is_delimiter(q[0]));
            assert((choose|k2: int| is_last_closing(q, k2)) == kq);
            let caseless = range_contains(&p, k + 1, n, 'i');
            let dotall = range_contains(&p, k + 1, n, 's');
            let multi_line = range_contains(&p, k + 1, n, 'm');
            return Some(RegexSource { body, caseless, dotall, multi_line });
        }
    }
    assert forall|k2: int| !is_last_closing(q, k2) by {
        if 2 <= k2 < q.len() {
            assert(q[k2] == p@[start + k2]);
        }
    }
    None
}

/// Whether `pattern`, an expression in nmap's dialect, matches `subject`.
///
/// A malformed pattern, or one that PCRE2 does not compile, matches nothing.
pub fn pcre2_is_match(pattern: &str, subject: &[u8]) -> (r: bool)
    ensures
        r == pattern_matches(pattern@, subject@),
{
    match parse_pattern(pattern) {
        None => false,
        Some(src) => match regex_search(&src.body, src.caseless, src.dotall, src.multi_line, subject) {
            Ok(found) => found,
            Err(_) => false,
        },
    }
}

} // verus!
