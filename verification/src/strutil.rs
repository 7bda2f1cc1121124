//! Small executable helpers over `String` and `&str`, with the spec
//! functions that the rest of the crate states its contracts with.
use vstd::prelude::*;
use vstd::string::*;

verus! {

/// Relies on `String::push`: appends exactly one character at the end.
#[verifier::external_body]
pub fn push_char(s: &mut String, c: char)
    ensures
        final(s)@ == old(s)@ + seq![c],
{
    s.push(c)
}

/// The suffix of `s` after its last `/`; empty when `s` ends with `/`,
/// all of `s` when `s` holds no `/`.
pub open spec fn basename_spec(s: Seq<char>) -> Seq<char>
    decreases s.len(),
{
    if s.len() == 0 {
        s
    } else if s[s.len() - 1] == '/' {
        Seq::empty()
    } else {
        basename_spec(s.drop_last()).push(s[s.len() - 1])
    }
}

/// `a` followed by `b`, with exactly one `/` between them.
pub open spec fn join_spec(a: Seq<char>, b: Seq<char>) -> Seq<char> {
    if a.len() > 0 && a[a.len() - 1] == '/' {
        a + b
    } else {
        a + seq!['/'] + b
    }
}

pub open spec fn starts_with_spec(s: Seq<char>, p: Seq<char>) -> bool {
    s.len() >= p.len() && s.subrange(0, p.len() as int) == p
}

pub open spec fn contains_char(s: Seq<char>, c: char) -> bool {
    exists|i: int| 0 <= i < s.len() && s[i] == c
}

/// A basename never holds a `/`.
pub proof fn lemma_basename_no_slash(s: Seq<char>)
    ensures
        !contains_char(basename_spec(s), '/'),
        basename_spec(s).len() <= s.len(),
    decreases s.len(),
{
    if s.len() == 0 {
    } else if s[s.len() - 1] == '/' {
    } else {
        lemma_basename_no_slash(s.drop_last());
        let b = basename_spec(s);
        assert forall|i: int| 0 <= i < b.len() implies b[i] != '/' by {
            if i < b.len() - 1 {
                assert(basename_spec(s.drop_last())[i] != '/');
            }
        }
    }
}

/// When `s[k] == '/'` and no `/` follows it, the basename is what follows `k`.
pub proof fn lemma_basename_after_slash(s: Seq<char>, k: int)
    requires
        0 <= k < s.len(),
        s[k] == '/',
        forall|j: int| k < j < s.len() ==> s[j] != '/',
    ensures
        basename_spec(s) == s.skip(k + 1),
    decreases s.len(),
{
    if k == s.len() - 1 {
        assert(basename_spec(s) =~= s.skip(k + 1));
    } else {
        lemma_basename_after_slash(s.drop_last(), k);
        assert(basename_spec(s) =~= s.skip(k + 1)) by {
            assert(basename_spec(s) == basename_spec(s.drop_last()).push(s[s.len() - 1]));
            assert(s.drop_last().skip(k + 1).push(s[s.len() - 1]) =~= s.skip(k + 1));
        }
    }
}

/// The basename is a suffix of the path.
pub proof fn lemma_basename_suffix(s: Seq<char>)
    ensures
        basename_spec(s).len() <= s.len(),
        basename_spec(s) == s.skip(s.len() - basename_spec(s).len()),
    decreases s.len(),
{
    if s.len() == 0 {
        assert(basename_spec(s) =~= s.skip(0));
    } else if s[s.len() - 1] == '/' {
        assert(basename_spec(s) =~= s.skip(s.len() as int));
    } else {
        lemma_basename_suffix(s.drop_last());
        let b = basename_spec(s);
        let b0 = basename_spec(s.drop_last());
        assert(b == b0.push(s[s.len() - 1]));
        assert(s.drop_last().skip(s.drop_last().len() - b0.len()).push(s[s.len() - 1]) =~= s.skip(
            s.len() - b.len(),
        ));
    }
}

/// Appending slash-free text extends the basename by that text.
pub proof fn lemma_basename_append_no_slash(x: Seq<char>, y: Seq<char>)
    requires
        !contains_char(y, '/'),
    ensures
        basename_spec(x + y) == basename_spec(x) + y,
    decreases y.len(),
{
    if y.len() == 0 {
        assert(x + y =~= x);
        assert(basename_spec(x) + y =~= basename_spec(x));
    } else {
        let y0 = y.drop_last();
        let c = y[y.len() - 1];
        assert(c != '/');
        assert(!contains_char(y0, '/')) by {
            if contains_char(y0, '/') {
                let i = choose|i: int| 0 <= i < y0.len() && y0[i] == '/';
                assert(y[i] == '/');
            }
        }
        lemma_basename_append_no_slash(x, y0);
        assert(x + y =~= (x + y0).push(c));
        assert((x + y0).push(c).drop_last() =~= x + y0);
        assert((x + y0).push(c).last() == c);
        assert(basename_spec((x + y0).push(c)) == basename_spec(x + y0).push(c));
        assert(basename_spec(x) + y =~= (basename_spec(x) + y0).push(c));
    }
}

/// When `s` holds no `/` at all, the basename is `s` itself.
pub proof fn lemma_basename_no_slash_id(s: Seq<char>)
    requires
        !contains_char(s, '/'),
    ensures
        basename_spec(s) == s,
    decreases s.len(),
{
    if s.len() == 0 {
    } else {
        assert(s[s.len() - 1] != '/');
        assert(!contains_char(s.drop_last(), '/')) by {
            assert forall|i: int| 0 <= i < s.drop_last().len() implies s.drop_last()[i] != '/' by {
                assert(s[i] != '/');
            }
        }
        lemma_basename_no_slash_id(s.drop_last());
        assert(basename_spec(s) =~= s);
    }
}

/// The characters of `s` after its last `/`, as a fresh `String`.
pub fn basename(s: &str) -> (r: String)
    ensures
        r@ == basename_spec(s@),
{
    let n = s.unicode_len();
    let mut i: usize = n;
    while i > 0
        invariant
            n == s@.len(),
            0 <= i <= n,
            forall|j: int| i <= j < n ==> s@[j] != '/',
        decreases i,
    {
        if s.get_char(i - 1) == '/' {
            let part = s.substring_char(i, n);
            proof {
                lemma_basename_after_slash(s@, i - 1);
            }
            return part.to_owned();
        }
        i = i - 1;
    }
    proof {
        assert(!contains_char(s@, '/'));
        lemma_basename_no_slash_id(s@);
    }
    s.to_owned()
}

/// The prefix of `s` before its last `/` (the parent directory of a path):
/// `/` when the last `/` is the leading one, empty when `s` holds no `/`.
pub open spec fn dirname_spec(s: Seq<char>) -> Seq<char> {
    if !contains_char(s, '/') {
        Seq::empty()
    } else {
        let k = s.len() - basename_spec(s).len() - 1;
        if k == 0 {
            seq!['/']
        } else {
            s.take(k)
        }
    }
}

/// The parent-directory prefix of `s`.
pub fn dirname(s: &str) -> (r: String)
    ensures
        r@ == dirname_spec(s@),
{
    let n = s.unicode_len();
    let mut i: usize = n;
    while i > 0
        invariant
            n == s@.len(),
            0 <= i <= n,
            forall|j: int| i <= j < n ==> s@[j] != '/',
        decreases i,
    {
        if s.get_char(i - 1) == '/' {
            proof {
                lemma_basename_after_slash(s@, i - 1);
                assert(contains_char(s@, '/'));
                assert(basename_spec(s@).len() == n - i);
            }
            if i == 1 {
                let mut r = String::new();
                push_char(&mut r, '/');
                return r;
            }
            let part = s.substring_char(0, i - 1);
            proof {
                assert(part@ == s@.take(i - 1));
            }
            return part.to_owned();
        }
        i = i - 1;
    }
    proof {
        assert(!contains_char(s@, '/'));
    }
    String::new()
}

/// `a` and `b` joined with exactly one `/` between them.
pub fn join_path(a: &str, b: &str) -> (r: String)
    ensures
        r@ == join_spec(a@, b@),
{
    let n = a.unicode_len();
    let mut r = a.to_owned();
    if n == 0 || a.get_char(n - 1) != '/' {
        push_char(&mut r, '/');
    }
    r.append(b);
    proof {
        if n == 0 {
            assert(a@ + seq!['/'] + b@ =~= a@ + (seq!['/'] + b@));
            assert(r@ =~= join_spec(a@, b@));
        } else if a@[n - 1] != '/' {
            assert(a@ + seq!['/'] + b@ =~= a@ + (seq!['/'] + b@));
            assert(r@ =~= join_spec(a@, b@));
        }
    }
    r
}

/// Character-for-character equality of two string slices.
pub fn str_eq(a: &str, b: &str) -> (r: bool)
    ensures
        r == (a@ == b@),
{
    let na = a.unicode_len();
    let nb = b.unicode_len();
    if na != nb {
        assert(a@ != b@);
        return false;
    }
    let mut i: usize = 0;
    while i < na
        invariant
            na == a@.len(),
            na == b@.len(),
            0 <= i <= na,
            forall|j: int| 0 <= j < i ==> a@[j] == b@[j],
        decreases na - i,
    {
        if a.get_char(i) != b.get_char(i) {
            return false;
        }
        i = i + 1;
    }
    proof {
        assert(a@ =~= b@);
    }
    true
}

/// The first position at or after `i` holding character `c`, or `-1`.
pub open spec fn find_char_from(s: Seq<char>, c: char, i: int) -> int
    decreases s.len() - i,
{
    if i < 0 || i >= s.len() {
        -1
    } else if s[i] == c {
        i
    } else {
        find_char_from(s, c, i + 1)
    }
}

/// How `find_char_from` characterises the first occurrence.
pub proof fn lemma_find_char_from(s: Seq<char>, c: char, i: int)
    requires
        0 <= i <= s.len(),
    ensures
        find_char_from(s, c, i) == -1 || i <= find_char_from(s, c, i) < s.len(),
        find_char_from(s, c, i) == -1 ==> forall|j: int| i <= j < s.len() ==> s[j] != c,
        find_char_from(s, c, i) >= 0 ==> {
            &&& s[find_char_from(s, c, i)] == c
            &&& forall|j: int| i <= j < find_char_from(s, c, i) ==> s[j] != c
        },
    decreases s.len() - i,
{
    if i < s.len() {
        lemma_find_char_from(s, c, i + 1);
    }
}

/// The characters that both kinds of record text treat as blank.
pub open spec fn is_ws(c: char) -> bool {
    c == ' ' || c == '\t' || c == '\r' || c == '\n'
}

/// `s` without its leading blanks.
pub open spec fn trim_start_spec(s: Seq<char>) -> Seq<char>
    decreases s.len(),
{
    if s.len() > 0 && is_ws(s[0]) {
        trim_start_spec(s.skip(1))
    } else {
        s
    }
}

/// `s` without its trailing blanks.
pub open spec fn trim_end_spec(s: Seq<char>) -> Seq<char>
    decreases s.len(),
{
    if s.len() > 0 && is_ws(s[s.len() - 1]) {
        trim_end_spec(s.drop_last())
    } else {
        s
    }
}

/// `s` without leading and trailing blanks.
pub open spec fn trim_spec(s: Seq<char>) -> Seq<char> {
    trim_end_spec(trim_start_spec(s))
}

proof fn lemma_trim_start_skip(s: Seq<char>, a: int)
    requires
        0 <= a <= s.len(),
        forall|j: int| 0 <= j < a ==> is_ws(s[j]),
        a == s.len() || !is_ws(s[a]),
    ensures
        trim_start_spec(s) == s.skip(a),
    decreases a,
{
    if a == 0 {
        assert(s.skip(0) =~= s);
    } else {
        assert(is_ws(s[0]));
        lemma_trim_start_skip(s.skip(1), a - 1);
        assert(s.skip(1).skip(a - 1) =~= s.skip(a));
    }
}

proof fn lemma_trim_end_take(s: Seq<char>, b: int)
    requires
        0 <= b <= s.len(),
        forall|j: int| b <= j < s.len() ==> is_ws(s[j]),
        b == 0 || !is_ws(s[b - 1]),
    ensures
        trim_end_spec(s) == s.take(b),
    decreases s.len() - b,
{
    if b == s.len() {
        assert(s.take(b) =~= s);
    } else {
        assert(is_ws(s[s.len() - 1]));
        lemma_trim_end_take(s.drop_last(), b);
        assert(s.drop_last().take(b) =~= s.take(b));
    }
}

/// `s` without leading and trailing blanks, as a fresh `String`.
pub fn trim(s: &str) -> (r: String)
    ensures
        r@ == trim_spec(s@),
{
    let n = s.unicode_len();
    let a = first_non_ws(s, 0);
    proof {
        lemma_trim_start_skip(s@, a as int);
    }
    if a == n {
        proof {
            assert(s@.skip(n as int) =~= Seq::<char>::empty());
        }
        return String::new();
    }
    let b = last_non_ws_before(s, n);
    assert(b > a) by {
        if b <= a {
            assert(is_ws(s@[a as int]));
        }
    }
    let part = s.substring_char(a, b);
    proof {
        let t = s@.skip(a as int);
        assert(forall|j: int| b - a <= j < t.len() ==> is_ws(t[j]));
        assert(!is_ws(t[b - a - 1]));
        lemma_trim_end_take(t, b - a);
        assert(t.take(b - a) =~= s@.subrange(a as int, b as int));
    }
    part.to_owned()
}

/// Trimming leaves a string with non-blank ends unchanged.
pub proof fn lemma_trim_id(s: Seq<char>)
    requires
        s.len() == 0 || (!is_ws(s[0]) && !is_ws(s[s.len() - 1])),
    ensures
        trim_spec(s) == s,
{
    lemma_trim_start_skip(s, 0);
    assert(s.skip(0) =~= s);
    lemma_trim_end_take(s, s.len() as int);
    assert(s.take(s.len() as int) =~= s);
}

/// `l` without one trailing carriage return.
pub open spec fn strip_cr(l: Seq<char>) -> Seq<char> {
    if l.len() > 0 && l[l.len() - 1] == '\r' {
        l.drop_last()
    } else {
        l
    }
}

/// The lines of `s`: separated by `\n`, each without a trailing `\r`, with
/// no empty line after a trailing separator.
pub open spec fn lines_spec(s: Seq<char>) -> Seq<Seq<char>>
    decreases s.len(),
{
    if s.len() == 0 {
        Seq::empty()
    } else {
        let k = find_char_from(s, '\n', 0);
        if k < 0 || k >= s.len() {
            seq![strip_cr(s)]
        } else {
            seq![strip_cr(s.take(k))] + lines_spec(s.skip(k + 1))
        }
    }
}

/// The first position at or after `i` holding `c`, or the length when none
/// does.
pub fn find_char_pos(s: &str, c: char, i: usize) -> (r: usize)
    requires
        i <= s@.len(),
    ensures
        i <= r <= s@.len(),
        forall|j: int| i <= j < r ==> s@[j] != c,
        r < s@.len() ==> s@[r as int] == c,
        r as int == if find_char_from(s@, c, i as int) >= 0 {
            find_char_from(s@, c, i as int)
        } else {
            s@.len() as int
        },
    decreases s@.len() - i,
{
    proof {
        lemma_find_char_from(s@, c, i as int);
    }
    let n = s.unicode_len();
    if i == n {
        n
    } else if s.get_char(i) == c {
        i
    } else {
        find_char_pos(s, c, i + 1)
    }
}

/// The first position at or after `i` holding a non-blank character, or the
/// length when none does.
pub fn first_non_ws(s: &str, i: usize) -> (r: usize)
    requires
        i <= s@.len(),
    ensures
        i <= r <= s@.len(),
        forall|j: int| i <= j < r ==> is_ws(s@[j]),
        r < s@.len() ==> !is_ws(s@[r as int]),
    decreases s@.len() - i,
{
    let n = s.unicode_len();
    if i == n {
        n
    } else {
        let c = s.get_char(i);
        if c == ' ' || c == '\t' || c == '\r' || c == '\n' {
            first_non_ws(s, i + 1)
        } else {
            i
        }
    }
}

/// The position after the last non-blank character strictly before `b`.
pub fn last_non_ws_before(s: &str, b: usize) -> (r: usize)
    requires
        b <= s@.len(),
    ensures
        r <= b,
        forall|j: int| r <= j < b ==> is_ws(s@[j]),
        r > 0 ==> !is_ws(s@[r - 1]),
    decreases b,
{
    if b == 0 {
        0
    } else {
        let c = s.get_char(b - 1);
        if c == ' ' || c == '\t' || c == '\r' || c == '\n' {
            last_non_ws_before(s, b - 1)
        } else {
            b
        }
    }
}

/// A newline-free line followed by `\n` contributes exactly itself.
pub proof fn lemma_lines_prepend(l: Seq<char>, rest: Seq<char>)
    requires
        !contains_char(l, '\n'),
        l.len() == 0 || l[l.len() - 1] != '\r',
    ensures
        lines_spec(l + seq!['\n'] + rest) == seq![l] + lines_spec(rest),
{
    let s = l + seq!['\n'] + rest;
    assert(s.len() == l.len() + 1 + rest.len());
    assert(s[l.len() as int] == '\n');
    lemma_find_char_from(s, '\n', 0);
    let k = find_char_from(s, '\n', 0);
    assert(k == l.len()) by {
        if k == -1 {
            assert(s[l.len() as int] != '\n');
        } else if k < l.len() {
            assert(s[k] == l[k]);
            assert(l[k] == '\n');
            assert(contains_char(l, '\n'));
        } else if k > l.len() {
            assert(s[l.len() as int] != '\n');
        }
    }
    assert(s.take(k) =~= l);
    assert(s.skip(k + 1) =~= rest);
    assert(strip_cr(l) == l);
    assert(lines_spec(s) =~= seq![l] + lines_spec(rest));
}

/// The lines of `s`, as fresh `String`s.
pub fn split_lines(s: &str) -> (r: Vec<String>)
    ensures
        r@.map_values(|l: String| l@) == lines_spec(s@),
{
    let n = s.unicode_len();
    let mut out: Vec<String> = Vec::new();
    let mut i: usize = 0;
    proof {
        assert(out@.map_values(|l: String| l@) =~= Seq::<Seq<char>>::empty());
        assert(s@.skip(0) =~= s@);
    }
    while i < n
        invariant
            n == s@.len(),
            0 <= i <= n,
            lines_spec(s@) == out@.map_values(|l: String| l@) + lines_spec(s@.skip(i as int)),
        decreases n - i,
    {
        let j = find_char_pos(s, '\n', i);
        let mut line = s.substring_char(i, j).to_owned();
        let nl = line.as_str().unicode_len();
        if nl > 0 && line.as_str().get_char(nl - 1) == '\r' {
            let clipped = line.as_str().substring_char(0, nl - 1).to_owned();
            line = clipped;
        }
        proof {
            let rest = s@.skip(i as int);
            assert(rest.len() > 0);
            let k = find_char_from(rest, '\n', 0);
            lemma_find_char_from(rest, '\n', 0);
            if j < n {
                assert(s@[j as int] == '\n');
                assert(rest[j - i] == '\n');
                assert(forall|t: int| 0 <= t < j - i ==> rest[t] != '\n');
                assert(k == j - i) by {
                    if k < 0 {
                        assert(rest[j - i] != '\n');
                    } else if k < j - i {
                        assert(rest[k] != '\n');
                    } else if k > j - i {
                        assert(rest[j - i] != '\n');
                    }
                }
                assert(rest.take(k) =~= s@.subrange(i as int, j as int));
                assert(rest.skip(k + 1) =~= s@.skip(j + 1));
                assert(line@ == strip_cr(s@.subrange(i as int, j as int)));
                assert(lines_spec(rest) == seq![strip_cr(rest.take(k))] + lines_spec(
                    s@.skip(j + 1),
                ));
            } else {
                assert(forall|t: int| 0 <= t < rest.len() ==> rest[t] != '\n');
                assert(k == -1) by {
                    if k >= 0 {
                        assert(rest[k] != '\n');
                    }
                }
                assert(rest.take(rest.len() as int) =~= rest);
                assert(rest =~= s@.subrange(i as int, j as int));
                assert(line@ == strip_cr(rest));
                assert(lines_spec(rest) == seq![strip_cr(rest)]);
            }
        }
        let ghost prev = out@;
        out.push(line);
        proof {
            assert(out@.map_values(|l: String| l@) =~= prev.map_values(|l: String| l@) + seq![
                line@,
            ]);
        }
        if j < n {
            i = j + 1;
        } else {
            i = n;
            proof {
                assert(s@.skip(n as int) =~= Seq::<char>::empty());
                assert(lines_spec(s@.skip(i as int)) =~= Seq::<Seq<char>>::empty());
            }
        }
        proof {
            assert(lines_spec(s@) =~= out@.map_values(|l: String| l@) + lines_spec(
                s@.skip(i as int),
            ));
        }
    }
    proof {
        assert(s@.skip(i as int) =~= Seq::<char>::empty());
        assert(lines_spec(s@.skip(i as int)) =~= Seq::<Seq<char>>::empty());
        assert(out@.map_values(|l: String| l@) =~= lines_spec(s@));
    }
    out
}

/// The elements of `s` that satisfy `pred`, in order.
pub open spec fn seq_filter<A>(s: Seq<A>, pred: spec_fn(A) -> bool) -> Seq<A>
    decreases s.len(),
{
    if s.len() == 0 {
        Seq::empty()
    } else if pred(s.last()) {
        seq_filter(s.drop_last(), pred).push(s.last())
    } else {
        seq_filter(s.drop_last(), pred)
    }
}

/// One step of filtering from the left.
pub proof fn lemma_seq_filter_push<A>(s: Seq<A>, x: A, pred: spec_fn(A) -> bool)
    ensures
        seq_filter(s.push(x), pred) == if pred(x) {
            seq_filter(s, pred).push(x)
        } else {
            seq_filter(s, pred)
        },
{
    assert(s.push(x).drop_last() =~= s);
    assert(s.push(x).last() == x);
}

/// The first position at or after `i` holding a blank character, or `-1`.
pub open spec fn find_ws_from(s: Seq<char>, i: int) -> int
    decreases s.len() - i,
{
    if i < 0 || i >= s.len() {
        -1
    } else if is_ws(s[i]) {
        i
    } else {
        find_ws_from(s, i + 1)
    }
}

/// How `find_ws_from` characterises the first blank.
pub proof fn lemma_find_ws_from(s: Seq<char>, i: int)
    requires
        0 <= i <= s.len(),
    ensures
        find_ws_from(s, i) == -1 || i <= find_ws_from(s, i) < s.len(),
        find_ws_from(s, i) == -1 ==> forall|j: int| i <= j < s.len() ==> !is_ws(s[j]),
        find_ws_from(s, i) >= 0 ==> {
            &&& is_ws(s[find_ws_from(s, i)])
            &&& forall|j: int| i <= j < find_ws_from(s, i) ==> !is_ws(s[j])
        },
    decreases s.len() - i,
{
    if i < s.len() {
        lemma_find_ws_from(s, i + 1);
    }
}

/// The blank-separated fields of `s`, in order.
pub open spec fn fields_spec(s: Seq<char>) -> Seq<Seq<char>>
    decreases s.len(),
{
    if s.len() == 0 {
        Seq::empty()
    } else if is_ws(s[0]) {
        fields_spec(s.skip(1))
    } else {
        let k = find_ws_from(s, 0);
        if k < 1 || k >= s.len() {
            seq![s]
        } else {
            seq![s.take(k)] + fields_spec(s.skip(k))
        }
    }
}

/// Dropping a run of blanks does not change the fields.
proof fn lemma_fields_skip_ws(s: Seq<char>, i: int, j: int)
    requires
        0 <= i <= j <= s.len(),
        forall|t: int| i <= t < j ==> is_ws(s[t]),
    ensures
        fields_spec(s.skip(i)) == fields_spec(s.skip(j)),
    decreases j - i,
{
    if i < j {
        assert(s.skip(i).len() > 0);
        assert(s.skip(i)[0] == s[i]);
        assert(s.skip(i).skip(1) =~= s.skip(i + 1));
        lemma_fields_skip_ws(s, i + 1, j);
    }
}

/// The first position at or after `i` holding a blank, or the length.
pub fn find_ws_pos(s: &str, i: usize) -> (r: usize)
    requires
        i <= s@.len(),
    ensures
        i <= r <= s@.len(),
        forall|j: int| i <= j < r ==> !is_ws(s@[j]),
        r < s@.len() ==> is_ws(s@[r as int]),
    decreases s@.len() - i,
{
    let n = s.unicode_len();
    if i == n {
        n
    } else {
        let c = s.get_char(i);
        if c == ' ' || c == '\t' || c == '\r' || c == '\n' {
            i
        } else {
            find_ws_pos(s, i + 1)
        }
    }
}

/// The blank-separated fields of `s`, as fresh `String`s.
pub fn fields(s: &str) -> (r: Vec<String>)
    ensures
        r@.map_values(|f: String| f@) == fields_spec(s@),
{
    let n = s.unicode_len();
    let mut out: Vec<String> = Vec::new();
    let mut i: usize = 0;
    proof {
        assert(out@.map_values(|f: String| f@) =~= Seq::<Seq<char>>::empty());
        assert(s@.skip(0) =~= s@);
    }
    while i < n
        invariant
            n == s@.len(),
            0 <= i <= n,
            fields_spec(s@) == out@.map_values(|f: String| f@) + fields_spec(s@.skip(i as int)),
        decreases n - i,
    {
        let start = first_non_ws(s, i);
        proof {
            lemma_fields_skip_ws(s@, i as int, start as int);
        }
        if start == n {
            proof {
                assert(s@.skip(n as int) =~= Seq::<char>::empty());
                assert(fields_spec(s@.skip(i as int)) =~= Seq::<Seq<char>>::empty());
            }
            i = n;
        } else {
            let end = find_ws_pos(s, start);
            let field = s.substring_char(start, end).to_owned();
            proof {
                let rest = s@.skip(start as int);
                assert(rest.len() > 0);
                assert(rest[0] == s@[start as int]);
                assert(!is_ws(rest[0]));
                let k = find_ws_from(rest, 0);
                lemma_find_ws_from(rest, 0);
                assert(forall|t: int| 0 <= t < end - start ==> !is_ws(rest[t]));
                if end < n {
                    assert(is_ws(rest[end - start]));
                    assert(k == end - start) by {
                        if k == -1 {
                            assert(!is_ws(rest[end - start]));
                        } else if k < end - start {
                            assert(!is_ws(rest[k]));
                        } else if k > end - start {
                            assert(!is_ws(rest[end - start]));
                        }
                    }
                    assert(rest.take(k) =~= s@.subrange(start as int, end as int));
                    assert(rest.skip(k) =~= s@.skip(end as int));
                    assert(fields_spec(rest) == seq![field@] + fields_spec(s@.skip(end as int)));
                } else {
                    assert(forall|t: int| 0 <= t < rest.len() ==> !is_ws(rest[t]));
                    assert(k == -1) by {
                        if k >= 0 {
                            assert(!is_ws(rest[k]));
                        }
                    }
                    assert(rest =~= s@.subrange(start as int, end as int));
                    assert(fields_spec(rest) == seq![rest]);
                    assert(field@ == rest);
                }
            }
            let ghost prev = out@;
            out.push(field);
            proof {
                assert(out@.map_values(|f: String| f@) =~= prev.map_values(|f: String| f@)
                    + seq![s@.subrange(start as int, end as int)]);
                if end == n {
                    assert(s@.skip(n as int) =~= Seq::<char>::empty());
                    assert(fields_spec(s@.skip(n as int)) =~= Seq::<Seq<char>>::empty());
                    assert(fields_spec(s@) =~= out@.map_values(|f: String| f@) + fields_spec(
                        s@.skip(n as int),
                    ));
                } else {
                    assert(fields_spec(s@) =~= out@.map_values(|f: String| f@) + fields_spec(
                        s@.skip(end as int),
                    ));
                }
            }
            i = end;
        }
    }
    proof {
        assert(s@.skip(i as int) =~= Seq::<char>::empty());
        assert(fields_spec(s@.skip(i as int)) =~= Seq::<Seq<char>>::empty());
        assert(out@.map_values(|f: String| f@) =~= fields_spec(s@));
    }
    out
}

/// The lower-case form of one ASCII letter; any other character unchanged.
pub open spec fn lower_char(c: char) -> char {
    if c == 'A' {
        'a'
    } else if c == 'B' {
        'b'
    } else if c == 'C' {
        'c'
    } else if c == 'D' {
        'd'
    } else if c == 'E' {
        'e'
    } else if c == 'F' {
        'f'
    } else if c == 'G' {
        'g'
    } else if c == 'H' {
        'h'
    } else if c == 'I' {
        'i'
    } else if c == 'J' {
        'j'
    } else if c == 'K' {
        'k'
    } else if c == 'L' {
        'l'
    } else if c == 'M' {
        'm'
    } else if c == 'N' {
        'n'
    } else if c == 'O' {
        'o'
    } else if c == 'P' {
        'p'
    } else if c == 'Q' {
        'q'
    } else if c == 'R' {
        'r'
    } else if c == 'S' {
        's'
    } else if c == 'T' {
        't'
    } else if c == 'U' {
        'u'
    } else if c == 'V' {
        'v'
    } else if c == 'W' {
        'w'
    } else if c == 'X' {
        'x'
    } else if c == 'Y' {
        'y'
    } else if c == 'Z' {
        'z'
    } else {
        c
    }
}

/// `s` with ASCII letters lowered.
pub open spec fn lower_spec(s: Seq<char>) -> Seq<char> {
    s.map_values(|c: char| lower_char(c))
}

/// The lower-case form of one ASCII letter.
fn lower_char_ex(c: char) -> (r: char)
    ensures
        r == lower_char(c),
{
    match c {
        'A' => 'a',
        'B' => 'b',
        'C' => 'c',
        'D' => 'd',
        'E' => 'e',
        'F' => 'f',
        'G' => 'g',
        'H' => 'h',
        'I' => 'i',
        'J' => 'j',
        'K' => 'k',
        'L' => 'l',
        'M' => 'm',
        'N' => 'n',
        'O' => 'o',
        'P' => 'p',
        'Q' => 'q',
        'R' => 'r',
        'S' => 's',
        'T' => 't',
        'U' => 'u',
        'V' => 'v',
        'W' => 'w',
        'X' => 'x',
        'Y' => 'y',
        'Z' => 'z',
        _ => c,
    }
}

/// `s` with ASCII letters lowered, as a fresh `String`.
pub fn to_lower(s: &str) -> (r: String)
    ensures
        r@ == lower_spec(s@),
{
    let n = s.unicode_len();
    let mut out = String::new();
    let mut i: usize = 0;
    proof {
        assert(out@ =~= lower_spec(s@.take(0)));
    }
    while i < n
        invariant
            n == s@.len(),
            0 <= i <= n,
            out@ == lower_spec(s@.take(i as int)),
        decreases n - i,
    {
        let c = lower_char_ex(s.get_char(i));
        push_char(&mut out, c);
        proof {
            assert(out@ =~= lower_spec(s@.take(i + 1)));
        }
        i = i + 1;
    }
    proof {
        assert(s@.take(n as int) =~= s@);
        assert(out@ =~= lower_spec(s@));
    }
    out
}

/// Whether `p` is a prefix of `s`.
pub fn starts_with(s: &str, p: &str) -> (r: bool)
    ensures
        r == starts_with_spec(s@, p@),
{
    let ns = s.unicode_len();
    let np = p.unicode_len();
    if ns < np {
        return false;
    }
    let mut i: usize = 0;
    while i < np
        invariant
            ns == s@.len(),
            np == p@.len(),
            np <= ns,
            0 <= i <= np,
            forall|j: int| 0 <= j < i ==> s@[j] == p@[j],
        decreases np - i,
    {
        if s.get_char(i) != p.get_char(i) {
            assert(s@.subrange(0, np as int)[i as int] != p@[i as int]);
            return false;
        }
        i = i + 1;
    }
    proof {
        assert(s@.subrange(0, np as int) =~= p@);
    }
    true
}

} // verus!
