//! Plain-text helpers for the document model: splitting text into lines,
//! joining lines back, and trimming, each with its mathematical form.

use vstd::prelude::*;

verus! {

/// Appends one character to a string.
///
/// Relies on `String::push`, which std documents as appending the given
/// `char` to the end of the string.
#[verifier::external_body]
pub fn push_char(s: &mut String, c: char)
    ensures
        final(s)@ == old(s)@.push(c),
{
    s.push(c);
}

/// The lines of `text` continued by the pending partial line `cur`: a line
/// ends at each newline, and a non-empty trailing segment is a line too.
pub open spec fn lines_acc(text: Seq<char>, cur: Seq<char>) -> Seq<Seq<char>>
    decreases text.len(),
{
    if text.len() == 0 {
        if cur.len() > 0 {
            seq![cur]
        } else {
            Seq::empty()
        }
    } else if text[0] == '\n' {
        seq![cur] + lines_acc(text.drop_first(), Seq::empty())
    } else {
        lines_acc(text.drop_first(), cur.push(text[0]))
    }
}

/// The lines of `text`, as `str::lines` splits them on newlines.
pub open spec fn spec_lines(text: Seq<char>) -> Seq<Seq<char>> {
    lines_acc(text, Seq::empty())
}

/// The text whose lines are `ls`, each line followed by a newline.
pub open spec fn spec_unlines(ls: Seq<Seq<char>>) -> Seq<char>
    decreases ls.len(),
{
    if ls.len() == 0 {
        Seq::empty()
    } else {
        ls.first() + seq!['\n'] + spec_unlines(ls.drop_first())
    }
}

/// The line contains no newline.
pub open spec fn line_ok(l: Seq<char>) -> bool {
    forall|i: int| 0 <= i < l.len() ==> l[i] != '\n'
}

/// The text is empty or ends with a newline.
pub open spec fn nl_terminated(t: Seq<char>) -> bool {
    t.len() == 0 || t.last() == '\n'
}

/// Splitting starts over after a full line: the pending prefix and the line
/// are emitted, and the rest is split on its own.
pub proof fn lemma_lines_acc_line(l: Seq<char>, t: Seq<char>, cur: Seq<char>)
    requires
        line_ok(l),
    ensures
        lines_acc(l + seq!['\n'] + t, cur) == seq![cur + l] + lines_acc(t, Seq::empty()),
    decreases l.len(),
{
    let s = l + seq!['\n'] + t;
    if l.len() == 0 {
        assert(s =~= seq!['\n'] + t);
        assert(s[0] == '\n');
        assert(s.drop_first() =~= t);
        assert(cur + l =~= cur);
    } else {
        assert(s[0] == l[0]);
        assert(s[0] != '\n');
        assert(s.drop_first() =~= l.drop_first() + seq!['\n'] + t);
        lemma_lines_acc_line(l.drop_first(), t, cur.push(l[0]));
        assert(cur.push(l[0]) + l.drop_first() =~= cur + l);
    }
}

/// Joining the lines of a newline-terminated text gives the text back.
pub proof fn lemma_unlines_of_lines(t: Seq<char>)
    requires
        nl_terminated(t),
    ensures
        spec_unlines(spec_lines(t)) == t,
    decreases t.len(),
{
    if t.len() == 0 {
    } else {
        let i = first_nl(t);
        lemma_first_nl(t);
        assert(i < t.len()) by {
            if i == t.len() {
                assert(t[t.len() - 1] == '\n');
            }
        }
        let l = t.take(i);
        let rest = t.skip(i + 1);
        assert(t =~= l + seq!['\n'] + rest);
        assert(line_ok(l));
        lemma_lines_acc_line(l, rest, Seq::empty());
        assert(Seq::<char>::empty() + l =~= l);
        assert(nl_terminated(rest)) by {
            if rest.len() > 0 {
                assert(rest.last() == t.last());
            }
        }
        lemma_unlines_of_lines(rest);
        assert(spec_lines(t) == seq![l] + spec_lines(rest));
        assert(spec_unlines(seq![l] + spec_lines(rest)) == l + seq!['\n'] + spec_unlines(
            spec_lines(rest),
        )) by {
            assert((seq![l] + spec_lines(rest)).first() == l);
            assert((seq![l] + spec_lines(rest)).drop_first() =~= spec_lines(rest));
        }
    }
}

/// Splitting a newline-terminated text followed by more text splits each
/// part on its own.
pub proof fn lemma_lines_append(x: Seq<char>, y: Seq<char>)
    requires
        nl_terminated(x),
    ensures
        spec_lines(x + y) == spec_lines(x) + spec_lines(y),
    decreases x.len(),
{
    if x.len() == 0 {
        assert(x + y =~= y);
        assert(spec_lines(x) + spec_lines(y) =~= spec_lines(y));
    } else {
        let i = first_nl(x);
        lemma_first_nl(x);
        assert(i < x.len()) by {
            if i == x.len() {
                assert(x[x.len() - 1] == '\n');
            }
        }
        let l = x.take(i);
        let rest = x.skip(i + 1);
        assert(x =~= l + seq!['\n'] + rest);
        assert(nl_terminated(rest)) by {
            if rest.len() > 0 {
                assert(rest.last() == x.last());
            }
        }
        lemma_lines_acc_line(l, rest, Seq::empty());
        assert(x + y =~= l + seq!['\n'] + (rest + y));
        lemma_lines_acc_line(l, rest + y, Seq::empty());
        lemma_lines_append(rest, y);
        assert(spec_lines(x + y) == seq![Seq::<char>::empty() + l] + (spec_lines(rest)
            + spec_lines(y)));
        assert(spec_lines(x) + spec_lines(y) =~= seq![Seq::<char>::empty() + l] + (spec_lines(rest)
            + spec_lines(y)));
    }
}

/// Index of the first newline in `t`, or its length when there is none.
pub open spec fn first_nl(t: Seq<char>) -> int
    decreases t.len(),
{
    if t.len() == 0 {
        0
    } else if t[0] == '\n' {
        0
    } else {
        1 + first_nl(t.drop_first())
    }
}

/// `first_nl` finds the first newline: nothing before it is one, and it is
/// one unless the text has none.
pub proof fn lemma_first_nl(t: Seq<char>)
    ensures
        0 <= first_nl(t) <= t.len(),
        forall|j: int| 0 <= j < first_nl(t) ==> t[j] != '\n',
        first_nl(t) < t.len() ==> t[first_nl(t)] == '\n',
    decreases t.len(),
{
    if t.len() > 0 && t[0] != '\n' {
        lemma_first_nl(t.drop_first());
        assert(forall|j: int| 0 <= j < first_nl(t) ==> t[j] != '\n') by {
            assert(forall|j: int|
                1 <= j < first_nl(t) ==> t[j] == t.drop_first()[j - 1] && t.drop_first()[j - 1]
                    != '\n');
        }
        if first_nl(t) < t.len() {
            assert(t[first_nl(t)] == t.drop_first()[first_nl(t.drop_first())]);
        }
    }
}

/// Split text into its lines; the executable form of `spec_lines`.
pub fn split_lines(text: &str) -> (lines: Vec<String>)
    ensures
        lines@.map_values(|l: String| l@) == spec_lines(text@),
{
    let n = text.unicode_len();
    let mut lines: Vec<String> = Vec::new();
    let mut cur = String::new();
    let mut i: usize = 0;
    proof {
        assert(text@.skip(0) =~= text@);
        assert(lines@.map_values(|l: String| l@) + lines_acc(text@, cur@) =~= lines_acc(
            text@,
            cur@,
        ));
    }
    while i < n
        invariant
            i <= n,
            n == text@.len(),
            spec_lines(text@) == lines@.map_values(|l: String| l@) + lines_acc(
                text@.skip(i as int),
                cur@,
            ),
        decreases n - i,
    {
        let c = text.get_char(i);
        proof {
            assert(text@.skip(i as int)[0] == text@[i as int]);
            assert(text@.skip(i as int).drop_first() =~= text@.skip(i as int + 1));
        }
        if c == '\n' {
            let ghost prev = lines@;
            let done = cur;
            cur = String::new();
            lines.push(done);
            proof {
                assert(lines@.map_values(|l: String| l@) =~= prev.map_values(|l: String| l@)
                    + seq![done@]);
            }
        } else {
            push_char(&mut cur, c);
        }
        i = i + 1;
    }
    proof {
        assert(text@.skip(n as int) =~= Seq::<char>::empty());
    }
    if !cur.as_str().is_empty() {
        let ghost prev = lines@;
        let ghost curv = cur@;
        lines.push(cur);
        proof {
            assert(lines@.map_values(|l: String| l@) =~= prev.map_values(|l: String| l@)
                + seq![curv]);
        }
    }
    lines
}

/// The character counts as blank when trimming.
pub open spec fn is_space(c: char) -> bool {
    c == ' ' || c == '\t'
}

/// `t` with leading blanks removed.
pub open spec fn trim_front(t: Seq<char>) -> Seq<char>
    decreases t.len(),
{
    if t.len() > 0 && is_space(t[0]) {
        trim_front(t.drop_first())
    } else {
        t
    }
}

/// `t` with trailing blanks removed.
pub open spec fn trim_back(t: Seq<char>) -> Seq<char>
    decreases t.len(),
{
    if t.len() > 0 && is_space(t.last()) {
        trim_back(t.drop_last())
    } else {
        t
    }
}

/// `t` with leading and trailing blanks removed.
pub open spec fn spec_trim(t: Seq<char>) -> Seq<char> {
    trim_back(trim_front(t))
}

proof fn lemma_trim_front_idx(t: Seq<char>, a: int)
    requires
        0 <= a <= t.len(),
        forall|k: int| 0 <= k < a ==> is_space(#[trigger] t[k]),
        a == t.len() || !is_space(t[a]),
    ensures
        trim_front(t) == t.skip(a),
    decreases a,
{
    if a == 0 {
        assert(t.skip(0) =~= t);
    } else {
        lemma_trim_front_idx(t.drop_first(), a - 1);
        assert(t.drop_first().skip(a - 1) =~= t.skip(a));
    }
}

proof fn lemma_trim_back_idx(t: Seq<char>, b: int)
    requires
        0 <= b <= t.len(),
        forall|k: int| b <= k < t.len() ==> is_space(#[trigger] t[k]),
        b == 0 || !is_space(t[b - 1]),
    ensures
        trim_back(t) == t.take(b),
    decreases t.len() - b,
{
    if b == t.len() {
        if b == 0 {
            assert(t.take(b) =~= t);
        } else {
            assert(t.take(b) =~= t);
        }
    } else {
        lemma_trim_back_idx(t.drop_last(), b);
        assert(t.drop_last().take(b) =~= t.take(b));
    }
}

/// A blank character, executably.
pub fn is_space_char(c: char) -> (r: bool)
    ensures
        r == is_space(c),
{
    c == ' ' || c == '\t'
}

/// Remove leading and trailing blanks; the executable form of `spec_trim`.
pub fn trim(s: &str) -> (r: String)
    ensures
        r@ == spec_trim(s@),
{
    let n = s.unicode_len();
    let mut a: usize = 0;
    loop
        invariant
            0 <= a <= n,
            n == s@.len(),
            forall|k: int| 0 <= k < a ==> is_space(#[trigger] s@[k]),
        ensures
            0 <= a <= n,
            forall|k: int| 0 <= k < a ==> is_space(#[trigger] s@[k]),
            a == n || !is_space(s@[a as int]),
        decreases n - a,
    {
        if a == n {
            break ;
        }
        if !is_space_char(s.get_char(a)) {
            break ;
        }
        a = a + 1;
    }
    proof {
        lemma_trim_front_idx(s@, a as int);
    }
    let mut b: usize = n;
    loop
        invariant
            a <= b <= n,
            n == s@.len(),
            a == n || !is_space(s@[a as int]),
            forall|k: int| b <= k < n ==> is_space(#[trigger] s@[k]),
        ensures
            a <= b <= n,
            forall|k: int| b <= k < n ==> is_space(#[trigger] s@[k]),
            b == a || !is_space(s@[b - 1]),
        decreases b,
    {
        if b == a {
            break ;
        }
        if !is_space_char(s.get_char(b - 1)) {
            break ;
        }
        b = b - 1;
    }
    if a == n {
        proof {
            assert(s@.skip(a as int) =~= Seq::<char>::empty());
        }
        String::new()
    } else {
        proof {
            let f = s@.skip(a as int);
            assert(forall|k: int|
                (b - a) <= k < f.len() ==> is_space(#[trigger] f[k]) && f[k] == s@[k + a]) by {
                assert(forall|k: int| 0 <= k < f.len() ==> f[k] == s@[k + a]);
            }
            assert(b > a ==> !is_space(f[b - a - 1]));
            lemma_trim_back_idx(f, b - a);
            assert(f.take(b - a) =~= s@.subrange(a as int, b as int));
        }
        s.substring_char(a, b).to_owned()
    }
}

/// Index of the first occurrence of `c` in `t`, or the length when absent.
pub open spec fn first_idx(t: Seq<char>, c: char) -> int
    decreases t.len(),
{
    if t.len() == 0 {
        0
    } else if t[0] == c {
        0
    } else {
        1 + first_idx(t.drop_first(), c)
    }
}

/// Find the first occurrence of `c`; the executable form of `first_idx`.
pub fn find_char(s: &str, c: char) -> (r: usize)
    ensures
        r as int == first_idx(s@, c),
        r <= s@.len(),
{
    let n = s.unicode_len();
    let mut i: usize = 0;
    loop
        invariant
            0 <= i <= n,
            n == s@.len(),
            forall|k: int| 0 <= k < i ==> s@[k] != c,
        ensures
            0 <= i <= n,
            forall|k: int| 0 <= k < i ==> s@[k] != c,
            i == n || s@[i as int] == c,
        decreases n - i,
    {
        if i == n {
            break ;
        }
        if s.get_char(i) == c {
            break ;
        }
        i = i + 1;
    }
    proof {
        lemma_first_idx_prefix(s@, c, i as int);
    }
    i
}

/// A position matching after a non-matching prefix is the first match.
pub proof fn lemma_first_idx_prefix(t: Seq<char>, c: char, i: int)
    requires
        0 <= i <= t.len(),
        forall|k: int| 0 <= k < i ==> t[k] != c,
        i == t.len() || t[i] == c,
    ensures
        first_idx(t, c) == i,
    decreases i,
{
    if i > 0 {
        lemma_first_idx_prefix(t.drop_first(), c, i - 1);
    }
}

} // verus!