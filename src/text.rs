//! Text helpers used across the library: prefixes, suffixes, infixes,
//! ASCII case folding, whitespace trimming, splitting, and the cleaning of
//! asset paths.
use vstd::prelude::*;

verus! {

/// Whether `c` is a Unicode `White_Space` character.
pub open spec fn is_white(c: char) -> bool {
    c == '\t' || c == '\n' || c == '\u{0B}' || c == '\u{0C}' || c == '\r' || c == ' '
        || c == '\u{85}' || c == '\u{A0}' || c == '\u{1680}' || ('\u{2000}' <= c <= '\u{200A}')
        || c == '\u{2028}' || c == '\u{2029}' || c == '\u{202F}' || c == '\u{205F}' || c == '\u{3000}'
}

fn white(c: char) -> (r: bool)
    ensures
        r == is_white(c),
{
    c == '\t' || c == '\n' || c == '\u{0B}' || c == '\u{0C}' || c == '\r' || c == ' '
        || c == '\u{85}' || c == '\u{A0}' || c == '\u{1680}' || ('\u{2000}' <= c && c <= '\u{200A}')
        || c == '\u{2028}' || c == '\u{2029}' || c == '\u{202F}' || c == '\u{205F}' || c == '\u{3000}'
}

/// The number of white characters at the start of `s`.
pub open spec fn white_prefix_len(s: Seq<char>) -> nat
    decreases s.len(),
{
    if s.len() > 0 && is_white(s[0]) {
        1 + white_prefix_len(s.subrange(1, s.len() as int))
    } else {
        0
    }
}

/// The number of white characters at the end of `s`.
pub open spec fn white_suffix_len(s: Seq<char>) -> nat
    decreases s.len(),
{
    if s.len() > 0 && is_white(s.last()) {
        1 + white_suffix_len(s.drop_last())
    } else {
        0
    }
}

/// `s` without white characters at either end.
pub open spec fn trimmed(s: Seq<char>) -> Seq<char> {
    let a = white_prefix_len(s);
    if a == s.len() {
        Seq::empty()
    } else {
        s.subrange(a as int, s.len() - white_suffix_len(s))
    }
}

proof fn lemma_white_prefix(s: Seq<char>, i: int)
    requires
        0 <= i <= s.len(),
        forall|j: int| 0 <= j < i ==> is_white(s[j]),
    ensures
        white_prefix_len(s) == i + white_prefix_len(s.subrange(i, s.len() as int)),
    decreases i,
{
    if i > 0 {
        let t = s.subrange(1, s.len() as int);
        assert(t.subrange(i - 1, t.len() as int) == s.subrange(i, s.len() as int));
        lemma_white_prefix(t, i - 1);
    } else {
        assert(s.subrange(0, s.len() as int) == s);
    }
}

proof fn lemma_white_suffix(s: Seq<char>, k: int)
    requires
        0 <= k <= s.len(),
        forall|j: int| s.len() - k <= j < s.len() ==> is_white(s[j]),
    ensures
        white_suffix_len(s) == k + white_suffix_len(s.subrange(0, s.len() - k)),
    decreases k,
{
    if k > 0 {
        let t = s.drop_last();
        assert(t.subrange(0, t.len() - (k - 1)) == s.subrange(0, s.len() - k));
        lemma_white_suffix(t, k - 1);
    } else {
        assert(s.subrange(0, s.len() as int) == s);
    }
}

/// `s` without white characters at either end, as `str::trim` does.
pub fn trim(s: &str) -> (r: &str)
    ensures
        r@ == trimmed(s@),
{
    let n = s.unicode_len();
    let mut a: usize = 0;
    while a < n && white(s.get_char(a))
        invariant
            n == s@.len(),
            0 <= a <= n,
            forall|j: int| 0 <= j < a ==> is_white(s@[j]),
        decreases n - a,
    {
        a = a + 1;
    }
    proof {
        lemma_white_prefix(s@, a as int);
        if a < n {
            assert(white_prefix_len(s@.subrange(a as int, n as int)) == 0);
        } else {
            assert(s@.subrange(a as int, n as int).len() == 0);
        }
    }
    if a == n {
        return s.substring_char(n, n);
    }
    let mut b: usize = n;
    while b > a && white(s.get_char(b - 1))
        invariant
            n == s@.len(),
            a < n,
            a <= b <= n,
            !is_white(s@[a as int]),
            forall|j: int| b <= j < n ==> is_white(s@[j]),
        decreases b,
    {
        b = b - 1;
    }
    proof {
        lemma_white_suffix(s@, n - b);
        let t = s@.subrange(0, b as int);
        assert(t.len() > 0 && t.last() == s@[b - 1]);
        assert(white_suffix_len(t) == 0);
    }
    s.substring_char(a, b)
}

/// `b` with the ASCII upper-case letters made lower-case.
pub open spec fn ascii_lower(b: Seq<u8>) -> Seq<u8> {
    b.map_values(|x: u8| if 65 <= x <= 90 { (x + 32) as u8 } else { x })
}

/// `b` with the ASCII upper-case letters made lower-case.
pub fn to_ascii_lower(b: &[u8]) -> (r: Vec<u8>)
    ensures
        r@ == ascii_lower(b@),
{
    let mut out: Vec<u8> = Vec::new();
    let mut i: usize = 0;
    while i < b.len()
        invariant
            0 <= i <= b@.len(),
            out@ == ascii_lower(b@.subrange(0, i as int)),
        decreases b@.len() - i,
    {
        let x = b[i];
        let y: u8 = if 65 <= x && x <= 90 { x + 32 } else { x };
        out.push(y);
        i = i + 1;
        assert(ascii_lower(b@.subrange(0, i as int)) == ascii_lower(b@.subrange(0, i - 1)).push(y));
    }
    assert(b@.subrange(0, b@.len() as int) == b@);
    out
}

/// Whether `p` is a prefix of `s`.
pub open spec fn has_prefix(s: Seq<u8>, p: Seq<u8>) -> bool {
    p.len() <= s.len() && s.subrange(0, p.len() as int) == p
}

/// Whether `p` is a suffix of `s`.
pub open spec fn has_suffix(s: Seq<u8>, p: Seq<u8>) -> bool {
    p.len() <= s.len() && s.subrange(s.len() - p.len(), s.len() as int) == p
}

/// Whether `p` occurs in `s`.
pub open spec fn has_infix(s: Seq<u8>, p: Seq<u8>) -> bool {
    exists|i: int| 0 <= i && i + p.len() <= s.len() && #[trigger] s.subrange(i, i + p.len()) == p
}

fn matches_at(s: &[u8], p: &[u8], at: usize) -> (r: bool)
    requires
        at + p@.len() <= s@.len(),
    ensures
        r == (s@.subrange(at as int, at + p@.len()) == p@),
{
    let n = s.len();
    let mut j: usize = 0;
    while j < p.len()
        invariant
            n == s@.len(),
            at + p@.len() <= s@.len(),
            0 <= j <= p@.len(),
            forall|k: int| 0 <= k < j ==> s@[at + k] == p@[k],
        decreases p@.len() - j,
    {
        if s[at + j] != p[j] {
            assert(s@.subrange(at as int, at + p@.len())[j as int] != p@[j as int]);
            return false;
        }
        j = j + 1;
    }
    assert(s@.subrange(at as int, at + p@.len()) == p@);
    true
}

/// Whether `s` starts with `p`.
pub fn starts_with(s: &[u8], p: &[u8]) -> (r: bool)
    ensures
        r == has_prefix(s@, p@),
{
    p.len() <= s.len() && matches_at(s, p, 0)
}

/// Whether `s` ends with `p`.
pub fn ends_with(s: &[u8], p: &[u8]) -> (r: bool)
    ensures
        r == has_suffix(s@, p@),
{
    p.len() <= s.len() && matches_at(s, p, s.len() - p.len())
}

/// Whether `p` occurs in `s`.
pub fn contains(s: &[u8], p: &[u8]) -> (r: bool)
    ensures
        r == has_infix(s@, p@),
{
    if p.len() > s.len() {
        return false;
    }
    let last = s.len() - p.len();
    let mut i: usize = 0;
    loop
        invariant
            p@.len() <= s@.len(),
            last == s@.len() - p@.len(),
            0 <= i <= last,
            forall|k: int| 0 <= k < i ==> #[trigger] s@.subrange(k, k + p@.len()) != p@,
        decreases last - i,
    {
        if matches_at(s, p, i) {
            return true;
        }
        if i == last {
            assert forall|k: int| 0 <= k && k + p@.len() <= s@.len() implies #[trigger] s@.subrange(k, k + p@.len()) != p@ by {
                assert(k <= i);
            }
            return false;
        }
        i = i + 1;
    }
}

/// The index of the first `c` in `s`, or its length.
pub open spec fn index_of(s: Seq<char>, c: char) -> int
    decreases s.len(),
{
    if s.len() == 0 || s[0] == c {
        0
    } else {
        1 + index_of(s.subrange(1, s.len() as int), c)
    }
}

pub proof fn lemma_index_of(s: Seq<char>, c: char, k: int)
    requires
        0 <= k < s.len(),
        s[k] == c,
        forall|j: int| 0 <= j < k ==> s[j] != c,
    ensures
        index_of(s, c) == k,
    decreases k,
{
    if k > 0 {
        let t = s.subrange(1, s.len() as int);
        assert(t[k - 1] == s[k]);
        lemma_index_of(t, c, k - 1);
    }
}

pub proof fn lemma_index_of_absent(s: Seq<char>, c: char)
    requires
        forall|j: int| 0 <= j < s.len() ==> s[j] != c,
    ensures
        index_of(s, c) == s.len(),
    decreases s.len(),
{
    if s.len() > 0 {
        let t = s.subrange(1, s.len() as int);
        assert forall|j: int| 0 <= j < t.len() implies t[j] != c by {
            assert(t[j] == s[j + 1]);
        }
        lemma_index_of_absent(t, c);
    }
}


/// `s` split at every `c`.
pub open spec fn split_on(s: Seq<char>, c: char) -> Seq<Seq<char>>
    decreases s.len(),
{
    let i = index_of(s, c);
    if i >= s.len() || i < 0 {
        seq![s]
    } else {
        seq![s.subrange(0, i)] + split_on(s.subrange(i + 1, s.len() as int), c)
    }
}

proof fn lemma_index_of_bounds(s: Seq<char>, c: char)
    ensures
        0 <= index_of(s, c) <= s.len(),
        index_of(s, c) < s.len() ==> s[index_of(s, c)] == c,
        forall|j: int| 0 <= j < index_of(s, c) ==> s[j] != c,
    decreases s.len(),
{
    if s.len() > 0 && s[0] != c {
        let t = s.subrange(1, s.len() as int);
        lemma_index_of_bounds(t, c);
        assert forall|j: int| 0 <= j < index_of(s, c) implies s[j] != c by {
            if j > 0 {
                assert(s[j] == t[j - 1]);
            }
        }
    }
}

/// The segments that a relative path keeps: empty segments and `.` are
/// dropped, except that a `.` leading the path, or any `..`, refuses the
/// whole path.
pub open spec fn kept_segments(segs: Seq<Seq<char>>, first: bool) -> Option<Seq<Seq<char>>>
    decreases segs.len(),
{
    if segs.len() == 0 {
        Some(Seq::empty())
    } else {
        let g = segs[0];
        let rest = kept_segments(segs.subrange(1, segs.len() as int), false);
        if g == seq!['.', '.'] || (first && g == seq!['.']) {
            None
        } else if g.len() == 0 || g == seq!['.'] {
            rest
        } else {
            match rest {
                Some(r) => Some(seq![g] + r),
                None => None,
            }
        }
    }
}

/// The segments joined with `/`.
pub open spec fn joined(segs: Seq<Seq<char>>) -> Seq<char>
    decreases segs.len(),
{
    if segs.len() == 0 {
        Seq::empty()
    } else if segs.len() == 1 {
        segs[0]
    } else {
        joined(segs.drop_last()) + seq!['/'] + segs.last()
    }
}

/// A relative asset path made safe: leading `/` dropped, empty and `.`
/// segments removed, `/`-joined; `None` for a path with `..`, one that
/// starts with `.`, or one that is left empty.
pub open spec fn sanitized(path: Seq<char>) -> Option<Seq<char>> {
    let rel = path.subrange(leading_run(path, '/') as int, path.len() as int);
    match kept_segments(split_on(rel, '/'), true) {
        Some(k) => if k.len() == 0 {
            None
        } else {
            Some(joined(k))
        },
        None => None,
    }
}

/// The number of `c` at the start of `s`.
pub open spec fn leading_run(s: Seq<char>, c: char) -> nat
    decreases s.len(),
{
    if s.len() > 0 && s[0] == c {
        1 + leading_run(s.subrange(1, s.len() as int), c)
    } else {
        0
    }
}

proof fn lemma_leading_run(s: Seq<char>, c: char, i: int)
    requires
        0 <= i <= s.len(),
        forall|j: int| 0 <= j < i ==> s[j] == c,
        i < s.len() ==> s[i] != c,
    ensures
        leading_run(s, c) == i,
    decreases i,
{
    if i > 0 {
        let t = s.subrange(1, s.len() as int);
        lemma_leading_run(t, c, i - 1);
    }
}

proof fn lemma_joined_push(k: Seq<Seq<char>>, g: Seq<char>)
    ensures
        joined(k.push(g)) == if k.len() == 0 { g } else { joined(k) + seq!['/'] + g },
{
    assert(k.push(g).drop_last() == k);
}

proof fn lemma_kept_append(done: Seq<Seq<char>>, segs: Seq<Seq<char>>, first: bool, g: Seq<char>)
    requires
        segs.len() > 0,
        segs[0] == g,
    ensures
        ({
            let rest = segs.subrange(1, segs.len() as int);
            let now = match kept_segments(segs, first) {
                Some(r) => Some(done + r),
                None => None,
            };
            if g == seq!['.', '.'] || (first && g == seq!['.']) {
                now is None
            } else if g.len() == 0 || g == seq!['.'] {
                now == match kept_segments(rest, false) {
                    Some(r) => Some(done + r),
                    None => None::<Seq<Seq<char>>>,
                }
            } else {
                now == match kept_segments(rest, false) {
                    Some(r) => Some(done.push(g) + r),
                    None => None::<Seq<Seq<char>>>,
                }
            }
        }),
{
    let rest = segs.subrange(1, segs.len() as int);
    match kept_segments(rest, false) {
        Some(r) => {
            assert(done + (seq![g] + r) == done.push(g) + r);
        },
        None => {},
    }
}

/// Makes a relative asset path safe, as `Path::components` reads it.
pub fn sanitize_path(path: &str) -> (r: Option<String>)
    ensures
        match (r, sanitized(path@)) {
            (Some(a), Some(b)) => a@ == b,
            (None, None) => true,
            _ => false,
        },
{
    let n = path.unicode_len();
    let mut a: usize = 0;
    while a < n && path.get_char(a) == '/'
        invariant
            n == path@.len(),
            0 <= a <= n,
            forall|j: int| 0 <= j < a ==> path@[j] == '/',
        decreases n - a,
    {
        a = a + 1;
    }
    proof {
        lemma_leading_run(path@, '/', a as int);
    }
    let ghost rel = path@.subrange(a as int, n as int);
    let ghost target = kept_segments(split_on(rel, '/'), true);
    let mut out = String::new();
    let ghost mut done: Seq<Seq<char>> = Seq::empty();
    let mut count: usize = 0;
    let mut first = true;
    let mut start: usize = a;
    loop
        invariant
            n == path@.len(),
            a <= start <= n,
            leading_run(path@, '/') == a,
            rel == path@.subrange(a as int, n as int),
            target == kept_segments(split_on(rel, '/'), true),
            target == match kept_segments(split_on(path@.subrange(start as int, n as int), '/'), first) {
                Some(r) => Some(done + r),
                None => None::<Seq<Seq<char>>>,
            },
            out@ == joined(done),
            count == done.len(),
            count <= start,
        decreases n - start,
    {
        let ghost rest = path@.subrange(start as int, n as int);
        let mut j: usize = start;
        while j < n && path.get_char(j) != '/'
            invariant
                n == path@.len(),
                start <= j <= n,
                forall|q: int| start <= q < j ==> path@[q] != '/',
            decreases n - j,
        {
            j = j + 1;
        }
        proof {
            lemma_index_of_bounds(rest, '/');
            if j < n {
                assert forall|q: int| 0 <= q < j - start implies rest[q] != '/' by {
                    assert(rest[q] == path@[start + q]);
                }
                lemma_index_of(rest, '/', j - start);
            } else {
                assert forall|q: int| 0 <= q < rest.len() implies rest[q] != '/' by {
                    assert(rest[q] == path@[start + q]);
                }
                lemma_index_of_absent(rest, '/');
            }
        }
        let seg = path.substring_char(start, j);
        let ghost segs = split_on(rest, '/');
        assert(segs[0] == seg@) by {
            if j < n {
                assert(rest.subrange(0, j - start) == seg@);
            } else {
                assert(rest == seg@);
            }
        }
        proof {
            lemma_kept_append(done, segs, first, seg@);
            if j < n {
                assert(segs.subrange(1, segs.len() as int) == split_on(path@.subrange(j + 1, n as int), '/')) by {
                    assert(rest.subrange(j - start + 1, rest.len() as int) == path@.subrange(j + 1, n as int));
                }
            } else {
                assert(segs.len() == 1);
                assert(segs.subrange(1, segs.len() as int) == Seq::<Seq<char>>::empty());
            }
        }
        let k = seg.unicode_len();
        let is_dot = k == 1 && seg.get_char(0) == '.';
        let is_dotdot = k == 2 && seg.get_char(0) == '.' && seg.get_char(1) == '.';
        proof {
            if is_dot {
                assert(seg@ =~= seq!['.']);
            } else if seg@ == seq!['.'] {
                assert(seg@[0] == '.');
            }
            if is_dotdot {
                assert(seg@ =~= seq!['.', '.']);
            } else if seg@ == seq!['.', '.'] {
                assert(seg@[0] == '.' && seg@[1] == '.');
            }
        }
        if is_dotdot || (first && is_dot) {
            return None;
        }
        if k > 0 && !is_dot {
            proof {
                lemma_joined_push(done, seg@);
            }
            if count > 0 {
                out.append("/");
                proof {
                    reveal_strlit("/");
                }
            }
            out.append(seg);
            proof {
                done = done.push(seg@);
            }
            count = count + 1;
        }
        first = false;
        if j == n {
            proof {
                assert(kept_segments(Seq::<Seq<char>>::empty(), false) == Some(Seq::<Seq<char>>::empty()));
                assert(done + Seq::<Seq<char>>::empty() == done);
            }
            if count == 0 {
                return None;
            }
            return Some(out);
        }
        start = j + 1;
    }
}

} // verus!
