//! Path normalisation: splitting on `/`, dropping `.` and empty components and
//! letting `..` remove the component before it.
use vstd::prelude::*;
use crate::text::{string_from_chars, chars_of, push_char};

verus! {

/// The effect of one path component on the stack of components kept so far.
pub open spec fn push_component(stack: Seq<Seq<char>>, comp: Seq<char>) -> Seq<Seq<char>> {
    if comp.len() == 0 || comp == seq!['.'] {
        stack
    } else if comp == seq!['.', '.'] {
        if stack.len() == 0 { stack } else { stack.drop_last() }
    } else {
        stack.push(comp)
    }
}

/// Scans the characters `rest`, with `cur` the component read so far.
pub open spec fn scan_components(rest: Seq<char>, stack: Seq<Seq<char>>, cur: Seq<char>) -> Seq<Seq<char>>
    decreases rest.len(),
{
    if rest.len() == 0 {
        push_component(stack, cur)
    } else if rest[0] == '/' {
        scan_components(rest.drop_first(), push_component(stack, cur), Seq::empty())
    } else {
        scan_components(rest.drop_first(), stack, cur.push(rest[0]))
    }
}

/// The components of a path after `.`, `..` and empty components are resolved.
pub open spec fn path_components(p: Seq<char>) -> Seq<Seq<char>> {
    scan_components(p, Seq::empty(), Seq::empty())
}

/// `/c1/c2/.../cn`.
pub open spec fn join_components(c: Seq<Seq<char>>) -> Seq<char>
    decreases c.len(),
{
    if c.len() == 0 {
        Seq::empty()
    } else {
        join_components(c.drop_last()) + seq!['/'] + c.last()
    }
}

/// The path that a list of components denotes; the empty list is the root.
pub open spec fn path_of(c: Seq<Seq<char>>) -> Seq<char> {
    if c.len() == 0 { seq!['/'] } else { join_components(c) }
}

/// The normal form of a path.
pub open spec fn normalized(p: Seq<char>) -> Seq<char> {
    path_of(path_components(p))
}

/// The parent directory of a path, `None` for the root.
pub open spec fn parent_of(p: Seq<char>) -> Option<Seq<char>> {
    let c = path_components(p);
    if c.len() == 0 {
        None
    } else {
        Some(path_of(c.drop_last()))
    }
}

pub open spec fn seqs_of(v: Seq<Vec<char>>) -> Seq<Seq<char>> {
    v.map_values(|x: Vec<char>| x@)
}

fn push_comp(stack: &mut Vec<Vec<char>>, comp: Vec<char>)
    ensures
        seqs_of(final(stack)@) == push_component(seqs_of(old(stack)@), comp@),
{
    let ghost c = comp@;
    let n = comp.len();
    if n == 0 {
        return;
    }
    if n == 1 && comp[0] == '.' {
        assert(c =~= seq!['.']);
        return;
    }
    if n == 2 && comp[0] == '.' && comp[1] == '.' {
        assert(c =~= seq!['.', '.']);
        if stack.len() > 0 {
            stack.pop();
            assert(seqs_of(stack@) =~= seqs_of(old(stack)@).drop_last());
        }
        return;
    }
    assert(c != seq!['.']) by {
        if c == seq!['.'] { assert(c[0] == '.'); }
    }
    assert(c != seq!['.', '.']) by {
        if c == seq!['.', '.'] { assert(c[0] == '.' && c[1] == '.'); }
    }
    stack.push(comp);
    assert(seqs_of(stack@) =~= seqs_of(old(stack)@).push(c));
}

/// The components of `path`, normalised.
pub fn components(path: &str) -> (st: Vec<Vec<char>>)
    ensures
        seqs_of(st@) == path_components(path@),
{
    let cs = chars_of(path);
    let mut stack: Vec<Vec<char>> = Vec::new();
    let mut cur: Vec<char> = Vec::new();
    let mut i: usize = 0;
    assert(cs@.skip(0) =~= cs@);
    assert(seqs_of(stack@) =~= Seq::<Seq<char>>::empty());
    while i < cs.len()
        invariant
            cs@ == path@,
            i <= cs@.len(),
            path_components(path@) == scan_components(cs@.skip(i as int), seqs_of(stack@), cur@),
        decreases cs@.len() - i,
    {
        assert(cs@.skip(i as int).drop_first() =~= cs@.skip(i as int + 1));
        assert(cs@.skip(i as int)[0] == cs@[i as int]);
        if cs[i] == '/' {
            let c = cur;
            cur = Vec::new();
            push_comp(&mut stack, c);
            assert(cur@ =~= Seq::<char>::empty());
        } else {
            cur.push(cs[i]);
        }
        i = i + 1;
    }
    assert(cs@.skip(i as int).len() == 0);
    push_comp(&mut stack, cur);
    stack
}

/// The characters of the path that the components denote.
pub fn join(stack: &Vec<Vec<char>>) -> (out: Vec<char>)
    ensures
        out@ == path_of(seqs_of(stack@)),
{
    let mut out: Vec<char> = Vec::new();
    if stack.len() == 0 {
        out.push('/');
        assert(out@ =~= seq!['/']);
        return out;
    }
    let mut k: usize = 0;
    assert(seqs_of(stack@).subrange(0, 0) =~= Seq::<Seq<char>>::empty());
    while k < stack.len()
        invariant
            k <= stack@.len(),
            out@ == join_components(seqs_of(stack@).subrange(0, k as int)),
        decreases stack@.len() - k,
    {
        let ghost before = out@;
        out.push('/');
        let comp = &stack[k];
        let mut j: usize = 0;
        while j < comp.len()
            invariant
                j <= comp@.len(),
                out@ == before + seq!['/'] + comp@.subrange(0, j as int),
            decreases comp@.len() - j,
        {
            out.push(comp[j]);
            j = j + 1;
            assert(out@ =~= before + seq!['/'] + comp@.subrange(0, j as int));
        }
        assert(comp@.subrange(0, j as int) =~= comp@);
        assert(seqs_of(stack@).subrange(0, k + 1).drop_last() =~= seqs_of(stack@).subrange(0, k as int));
        k = k + 1;
    }
    assert(seqs_of(stack@).subrange(0, k as int) =~= seqs_of(stack@));
    out
}

/// The normal form of `path`, as characters.
pub fn normalize_chars(path: &str) -> (out: Vec<char>)
    ensures
        out@ == normalized(path@),
{
    let st = components(path);
    join(&st)
}

/// Normalises a path: removes empty and `.` components and resolves `..`;
/// the result starts with `/` and has no trailing `/` unless it is the root.
pub fn normalize_path(path: &str) -> (out: String)
    ensures
        out@ == normalized(path@),
{
    let cs = normalize_chars(path);
    string_from_chars(&cs)
}

/// The parent directory of `path`, or `None` for the root.
pub fn parent_path(path: &str) -> (out: Option<String>)
    ensures
        match out {
            Some(s) => parent_of(path@) == Some(s@),
            None => parent_of(path@) is None,
        },
{
    let mut st = components(path);
    if st.len() == 0 {
        return None;
    }
    st.pop();
    assert(seqs_of(st@) =~= path_components(path@).drop_last());
    let cs = join(&st);
    Some(string_from_chars(&cs))
}

/// The parts of `p` that the spans mark.
pub open spec fn span_seqs(p: Seq<char>, s: Seq<(usize, usize)>) -> Seq<Seq<char>> {
    s.map_values(|x: (usize, usize)| p.subrange(x.0 as int, x.1 as int))
}

/// The stack of component spans after the component `a..b` of `cs`.
fn push_span(cs: &Vec<char>, spans: &mut Vec<(usize, usize)>, a: usize, b: usize)
    requires
        a <= b <= cs@.len(),
        forall|k: int| 0 <= k < old(spans)@.len() ==> (#[trigger] old(spans)@[k]).0 <= old(spans)@[k].1 <= cs@.len(),
    ensures
        span_seqs(cs@, final(spans)@) == push_component(span_seqs(cs@, old(spans)@), cs@.subrange(a as int, b as int)),
        forall|k: int| 0 <= k < final(spans)@.len() ==> (#[trigger] final(spans)@[k]).0 <= final(spans)@[k].1 <= cs@.len(),
{
    let ghost c = cs@.subrange(a as int, b as int);
    let n = b - a;
    if n == 0 {
        return;
    }
    if n == 1 && cs[a] == '.' {
        assert(c =~= seq!['.']);
        return;
    }
    if n == 2 && cs[a] == '.' && cs[a + 1] == '.' {
        assert(c =~= seq!['.', '.']);
        if spans.len() > 0 {
            spans.pop();
            assert(span_seqs(cs@, spans@) =~= span_seqs(cs@, old(spans)@).drop_last());
        }
        return;
    }
    assert(c != seq!['.']) by {
        if c == seq!['.'] {
            assert(c.len() == 1 && c[0] == '.');
        }
    }
    assert(c != seq!['.', '.']) by {
        if c == seq!['.', '.'] {
            assert(c[0] == '.' && c[1] == '.');
        }
    }
    spans.push((a, b));
    assert(span_seqs(cs@, spans@) =~= span_seqs(cs@, old(spans)@).push(c));
}

/// The last component of `path` once normalised, or `None` when it
/// normalises to the root.
pub fn file_name(path: &str) -> (out: Option<&str>)
    ensures
        match out {
            Some(s) => path_components(path@).len() > 0 && s@ == path_components(path@).last(),
            None => path_components(path@).len() == 0,
        },
{
    let cs = chars_of(path);
    let mut spans: Vec<(usize, usize)> = Vec::new();
    let mut start: usize = 0;
    let mut i: usize = 0;
    assert(cs@.skip(0) =~= cs@);
    assert(span_seqs(cs@, spans@) =~= Seq::<Seq<char>>::empty());
    assert(cs@.subrange(0, 0) =~= Seq::<char>::empty());
    while i < cs.len()
        invariant
            cs@ == path@,
            start <= i <= cs@.len(),
            forall|k: int| 0 <= k < spans@.len() ==> (#[trigger] spans@[k]).0 <= spans@[k].1 <= cs@.len(),
            path_components(path@) == scan_components(cs@.skip(i as int), span_seqs(cs@, spans@), cs@.subrange(start as int, i as int)),
        decreases cs@.len() - i,
    {
        assert(cs@.skip(i as int).drop_first() =~= cs@.skip(i as int + 1));
        assert(cs@.skip(i as int)[0] == cs@[i as int]);
        if cs[i] == '/' {
            push_span(&cs, &mut spans, start, i);
            start = i + 1;
            assert(cs@.subrange(start as int, start as int) =~= Seq::<char>::empty());
        } else {
            assert(cs@.subrange(start as int, i + 1) =~= cs@.subrange(start as int, i as int).push(cs@[i as int]));
        }
        i = i + 1;
    }
    assert(cs@.skip(i as int).len() == 0);
    push_span(&cs, &mut spans, start, i);
    if spans.len() == 0 {
        return None;
    }
    let last = spans.len() - 1;
    let (a, b) = spans[last];
    assert(span_seqs(cs@, spans@)[last as int] == cs@.subrange(a as int, b as int));
    let s = path.substring_char(a, b);
    Some(s)
}

/// A component that survives normalisation: not empty, not `.` or `..`,
/// without `/`.
pub open spec fn proper(c: Seq<char>) -> bool {
    &&& c.len() > 0
    &&& c != seq!['.']
    &&& c != seq!['.', '.']
    &&& forall|i: int| 0 <= i < c.len() ==> c[i] != '/'
}

pub open spec fn all_proper(s: Seq<Seq<char>>) -> bool {
    forall|i: int| 0 <= i < s.len() ==> #[trigger] proper(s[i])
}

proof fn lemma_scan_proper(rest: Seq<char>, stack: Seq<Seq<char>>, cur: Seq<char>)
    requires
        all_proper(stack),
        forall|i: int| 0 <= i < cur.len() ==> cur[i] != '/',
    ensures
        all_proper(scan_components(rest, stack, cur)),
    decreases rest.len(),
{
    let pushed = push_component(stack, cur);
    assert(all_proper(pushed)) by {
        if !(cur.len() == 0 || cur == seq!['.']) && cur != seq!['.', '.'] {
            assert forall|i: int| 0 <= i < pushed.len() implies #[trigger] proper(pushed[i]) by {
                if i < stack.len() {
                    assert(pushed[i] == stack[i]);
                }
            }
        } else if cur == seq!['.', '.'] && stack.len() > 0 {
            assert forall|i: int| 0 <= i < pushed.len() implies #[trigger] proper(pushed[i]) by {
                assert(pushed[i] == stack[i]);
            }
        }
    }
    if rest.len() > 0 {
        if rest[0] == '/' {
            lemma_scan_proper(rest.drop_first(), pushed, Seq::empty());
        } else {
            lemma_scan_proper(rest.drop_first(), stack, cur.push(rest[0]));
        }
    }
}

proof fn lemma_scan_word(w: Seq<char>, rest: Seq<char>, stack: Seq<Seq<char>>, cur: Seq<char>)
    requires
        forall|i: int| 0 <= i < w.len() ==> w[i] != '/',
    ensures
        scan_components(w + rest, stack, cur) == scan_components(rest, stack, cur + w),
    decreases w.len(),
{
    if w.len() == 0 {
        assert(w + rest =~= rest);
        assert(cur + w =~= cur);
    } else {
        assert((w + rest)[0] == w[0]);
        assert((w + rest).drop_first() =~= w.drop_first() + rest);
        lemma_scan_word(w.drop_first(), rest, stack, cur.push(w[0]));
        assert(cur.push(w[0]) + w.drop_first() =~= cur + w);
    }
}

proof fn lemma_scan_join(c: Seq<Seq<char>>, rest: Seq<char>, s: Seq<Seq<char>>)
    requires
        c.len() >= 1,
        all_proper(c),
    ensures
        scan_components(join_components(c) + rest, s, Seq::empty()) == scan_components(rest, s + c.drop_last(), c.last()),
    decreases c.len(),
{
    let last = c.last();
    assert(proper(c[c.len() - 1]));
    let y = seq!['/'] + (last + rest);
    assert(y[0] == '/');
    assert(y.drop_first() =~= last + rest);
    if c.len() == 1 {
        assert(join_components(c.drop_last()) =~= Seq::<char>::empty());
        assert(join_components(c) + rest =~= y);
        assert(push_component(s, Seq::<char>::empty()) == s);
        lemma_scan_word(last, rest, s, Seq::empty());
        assert(Seq::<char>::empty() + last =~= last);
        assert(s + c.drop_last() =~= s);
    } else {
        let c2 = c.drop_last();
        assert forall|i: int| 0 <= i < c2.len() implies #[trigger] proper(c2[i]) by {
            assert(c2[i] == c[i]);
        }
        assert(join_components(c) + rest =~= join_components(c2) + y);
        lemma_scan_join(c2, y, s);
        let s2 = s + c2.drop_last();
        assert(proper(c2.last())) by {
            assert(c2.last() == c[c2.len() - 1]);
        }
        assert(push_component(s2, c2.last()) == s2.push(c2.last()));
        assert(s2.push(c2.last()) =~= s + c2);
        lemma_scan_word(last, rest, s + c2, Seq::empty());
        assert(Seq::<char>::empty() + last =~= last);
    }
}

/// The components of the path that proper components denote are those
/// components.
proof fn lemma_components_of_path(c: Seq<Seq<char>>)
    requires
        all_proper(c),
    ensures
        path_components(path_of(c)) == c,
{
    if c.len() == 0 {
        let r = seq!['/'];
        let e = Seq::<Seq<char>>::empty();
        assert(r[0] == '/');
        assert(r.drop_first() =~= Seq::<char>::empty());
        assert(push_component(e, Seq::<char>::empty()) == e);
        assert(scan_components(r.drop_first(), e, Seq::empty()) == e);
        assert(scan_components(r, e, Seq::empty()) == e);
        assert(path_of(c) == r);
        assert(c =~= e);
    } else {
        let e = Seq::<Seq<char>>::empty();
        assert(join_components(c) + Seq::<char>::empty() =~= join_components(c));
        lemma_scan_join(c, Seq::empty(), e);
        assert(proper(c[c.len() - 1]));
        assert(e + c.drop_last() =~= c.drop_last());
        let last = c.last();
        assert(last != seq!['.']);
        assert(last != seq!['.', '.']);
        assert(push_component(c.drop_last(), last) == c.drop_last().push(last));
        assert(c.drop_last().push(c.last()) =~= c);
        assert(scan_components(Seq::<char>::empty(), c.drop_last(), last) == c);
        assert(path_of(c) == join_components(c));
    }
}

/// Normalising a normalised path changes nothing.
pub proof fn lemma_normalize_idempotent(p: Seq<char>)
    ensures
        normalized(normalized(p)) == normalized(p),
{
    lemma_scan_proper(p, Seq::empty(), Seq::empty());
    lemma_components_of_path(path_components(p));
}

/// A join of proper components starts with `/` and ends in a character
/// other than `/`.
proof fn lemma_join_shape(c: Seq<Seq<char>>)
    requires
        c.len() > 0,
        all_proper(c),
    ensures
        join_components(c).len() > 1,
        join_components(c)[0] == '/',
        join_components(c).last() != '/',
    decreases c.len(),
{
    let d = c.drop_last();
    let last = c.last();
    assert(proper(c[c.len() - 1]));
    let j = join_components(c);
    assert(j == join_components(d) + seq!['/'] + last);
    if d.len() > 0 {
        assert forall|i: int| 0 <= i < d.len() implies #[trigger] proper(d[i]) by {
            assert(d[i] == c[i]);
        }
        lemma_join_shape(d);
        assert(j[0] == join_components(d)[0]);
    } else {
        assert(join_components(d) =~= Seq::<char>::empty());
        assert(j[0] == '/');
    }
    assert(j.last() == last[last.len() - 1]);
}

/// The normal form of a path starts with `/`, ends in `/` only when it is
/// the root, and is made of proper components (none empty, `.` or `..`);
/// normalising it again keeps those components.
pub proof fn lemma_normalized_shape(p: Seq<char>)
    ensures
        normalized(p).len() > 0 && normalized(p)[0] == '/',
        normalized(p) == seq!['/'] || normalized(p).last() != '/',
        all_proper(path_components(p)),
        path_components(normalized(p)) == path_components(p),
{
    lemma_scan_proper(p, Seq::empty(), Seq::empty());
    lemma_components_of_path(path_components(p));
    if path_components(p).len() > 0 {
        lemma_join_shape(path_components(p));
    }
}

} // verus!
