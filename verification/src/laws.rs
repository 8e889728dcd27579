//! Laws of the document model: rendering and parsing invert each other on
//! well-formed documents, and the mutations are idempotent.

use crate::content::{
    delim, drop_blanks, fold_upsert, has_key, is_fence, key_index, lookup, render_entries,
    render_entry, render_prop_line, render_props, scan_props, spec_parse, spec_parse_entries,
    spec_parse_lines, spec_parse_prop_line, spec_upsert, ticks, BlockAcc, BlockModel,
    ContentModel, EntryModel, PropModel,
};
use crate::text::{
    lemma_first_idx_prefix, lemma_lines_acc_line, lemma_lines_append, lemma_unlines_of_lines,
    line_ok, nl_terminated, spec_lines, spec_trim, spec_unlines, trim_back, trim_front,
};
use vstd::prelude::*;

verus! {

/// The property round-trips: no newlines, no colon in the key, both sides
/// trimmed, and the value not wrapped in double quotes.
pub open spec fn wf_prop(p: PropModel) -> bool {
    &&& line_ok(p.key)
    &&& line_ok(p.value)
    &&& forall|i: int| 0 <= i < p.key.len() ==> p.key[i] != ':'
    &&& spec_trim(p.key) == p.key
    &&& spec_trim(p.value) == p.value
    &&& !(p.value.len() >= 2 && p.value[0] == '"' && p.value.last() == '"')
}

/// The block round-trips: a one-line kind, and a newline-terminated body
/// none of whose lines is a closing fence.
pub open spec fn wf_block(b: BlockModel) -> bool {
    &&& line_ok(b.kind)
    &&& nl_terminated(b.code)
    &&& forall|i: int|
        0 <= i < spec_lines(b.code).len() ==> #[trigger] spec_lines(b.code)[i] != ticks()
}

/// The entry round-trips: a line must not open a fence, a block must be
/// well formed.
pub open spec fn wf_entry(e: EntryModel) -> bool {
    match e {
        EntryModel::Line(l) => line_ok(l) && !is_fence(l),
        EntryModel::Block(b) => wf_block(b),
    }
}

/// The first line the body renders to.
pub open spec fn first_body_line(e: EntryModel) -> Seq<char> {
    match e {
        EntryModel::Line(l) => l,
        EntryModel::Block(b) => ticks() + b.kind,
    }
}

/// The document round-trips: every part does, keys are unique, the first
/// entry is not blank (parsing drops leading blank lines), and a first
/// line must not read as the front-matter delimiter.
pub open spec fn wf_content(m: ContentModel) -> bool {
    &&& forall|i: int| 0 <= i < m.props.len() ==> wf_prop(#[trigger] m.props[i])
    &&& forall|i: int, j: int|
        0 <= i < j < m.props.len() ==> m.props[i].key != m.props[j].key
    &&& forall|i: int| 0 <= i < m.entries.len() ==> wf_entry(#[trigger] m.entries[i])
    &&& m.entries.len() > 0 ==> first_body_line(m.entries.first()).len() > 0
    &&& (m.props.len() == 0 && m.entries.len() > 0) ==> first_body_line(m.entries.first())
        != delim()
}

proof fn lemma_render_entry_nl(e: EntryModel)
    ensures
        nl_terminated(render_entry(e)),
{
    match e {
        EntryModel::Line(l) => {
            assert(render_entry(e).last() == '\n');
        },
        EntryModel::Block(b) => {
            assert(render_entry(e).last() == '\n');
        },
    }
}

proof fn lemma_render_props_nl(ps: Seq<PropModel>)
    ensures
        nl_terminated(render_props(ps)),
    decreases ps.len(),
{
    if ps.len() > 0 {
        lemma_render_props_nl(ps.drop_first());
        let rest = render_props(ps.drop_first());
        if rest.len() == 0 {
            assert(render_props(ps).last() == '\n');
        } else {
            assert(render_props(ps).last() == rest.last());
        }
    }
}

/// Scanning a block body: lines that are not fences accumulate until the
/// closing fence, and the block comes out with its body joined back.
proof fn lemma_scan_block(
    kind: Seq<char>,
    pre: Seq<Seq<char>>,
    body: Seq<Seq<char>>,
    rest: Seq<Seq<char>>,
)
    requires
        forall|i: int| 0 <= i < body.len() ==> #[trigger] body[i] != ticks(),
    ensures
        spec_parse_entries(body + seq![ticks()] + rest, Some(BlockAcc { kind, lines: pre }))
            == seq![
            EntryModel::Block(BlockModel { kind, code: spec_unlines(pre + body) }),
        ] + spec_parse_entries(rest, None),
    decreases body.len(),
{
    let ls = body + seq![ticks()] + rest;
    if body.len() == 0 {
        assert(ls =~= seq![ticks()] + rest);
        assert(ls.first() == ticks());
        assert(ls.drop_first() =~= rest);
        assert(pre + body =~= pre);
    } else {
        assert(ls.first() == body[0]);
        assert(ls.first() != ticks());
        assert(ls.drop_first() =~= body.drop_first() + seq![ticks()] + rest);
        lemma_scan_block(kind, pre.push(body[0]), body.drop_first(), rest);
        assert(pre.push(body[0]) + body.drop_first() =~= pre + body);
    }
}

/// One rendered entry reads back as itself, whatever follows.
proof fn lemma_parse_one_entry(e: EntryModel, tail: Seq<Seq<char>>)
    requires
        wf_entry(e),
    ensures
        spec_parse_entries(spec_lines(render_entry(e)) + tail, None) == seq![e]
            + spec_parse_entries(tail, None),
{
    match e {
        EntryModel::Line(l) => {
            lemma_lines_acc_line(l, Seq::empty(), Seq::empty());
            assert(l + seq!['\n'] + Seq::<char>::empty() =~= render_entry(e));
            assert(Seq::<char>::empty() + l =~= l);
            assert(spec_lines(render_entry(e)) =~= seq![l]);
            let ls = seq![l] + tail;
            assert(ls.first() == l);
            assert(!is_fence(ls.first()));
            assert(ls.drop_first() =~= tail);
        },
        EntryModel::Block(b) => {
            let fence = ticks() + b.kind;
            assert(line_ok(fence)) by {
                assert(forall|i: int|
                    3 <= i < fence.len() ==> fence[i] == b.kind[i - 3] && b.kind[i - 3] != '\n');
            }
            lemma_lines_acc_line(fence, b.code + ticks() + seq!['\n'], Seq::empty());
            assert(render_entry(e) =~= fence + seq!['\n'] + (b.code + ticks() + seq!['\n']));
            assert(Seq::<char>::empty() + fence =~= fence);
            lemma_lines_append(b.code, ticks() + seq!['\n']);
            lemma_lines_acc_line(ticks(), Seq::empty(), Seq::empty());
            assert(ticks() + seq!['\n'] + Seq::<char>::empty() =~= ticks() + seq!['\n']);
            assert(Seq::<char>::empty() + ticks() =~= ticks());
            assert(spec_lines(ticks() + seq!['\n']) =~= seq![ticks()]);
            assert(b.code + ticks() + seq!['\n'] =~= b.code + (ticks() + seq!['\n']));
            assert(spec_lines(b.code + ticks() + seq!['\n']) =~= spec_lines(b.code)
                + seq![ticks()]);
            assert(spec_lines(render_entry(e)) =~= seq![fence] + (spec_lines(b.code)
                + seq![ticks()]));
            let ls = spec_lines(render_entry(e)) + tail;
            assert(ls.first() == fence);
            assert(is_fence(fence));
            assert(fence.skip(3) =~= b.kind);
            assert(ls.drop_first() =~= spec_lines(b.code) + seq![ticks()] + tail);
            lemma_scan_block(b.kind, Seq::empty(), spec_lines(b.code), tail);
            assert(Seq::<Seq<char>>::empty() + spec_lines(b.code) =~= spec_lines(b.code));
            lemma_unlines_of_lines(b.code);
            assert(BlockModel { kind: b.kind, code: spec_unlines(spec_lines(b.code)) } == b);
        },
    }
}

/// The rendered body reads back as the entries it came from.
proof fn lemma_parse_entries_render(es: Seq<EntryModel>)
    requires
        forall|i: int| 0 <= i < es.len() ==> wf_entry(#[trigger] es[i]),
    ensures
        spec_parse_entries(spec_lines(render_entries(es)), None) == es,
    decreases es.len(),
{
    if es.len() == 0 {
        assert(spec_lines(render_entries(es)) =~= Seq::<Seq<char>>::empty());
    } else {
        lemma_render_entry_nl(es.first());
        lemma_lines_append(render_entry(es.first()), render_entries(es.drop_first()));
        lemma_parse_one_entry(es.first(), spec_lines(render_entries(es.drop_first())));
        lemma_parse_entries_render(es.drop_first());
        assert(seq![es.first()] + es.drop_first() =~= es);
    }
}

/// A rendered property line is not the front-matter delimiter.
proof fn lemma_prop_line_not_delim(p: PropModel)
    requires
        wf_prop(p),
    ensures
        render_prop_line(p) != delim(),
{
    let l = render_prop_line(p);
    assert(l[p.key.len() as int] == ':');
    if l == delim() {
        assert(l.len() == 3);
        assert(p.key.len() <= 1);
        assert(delim()[p.key.len() as int] == '-');
        assert(false);
    }
}

/// A rendered property line reads back as its property.
proof fn lemma_parse_prop_line_render(p: PropModel)
    requires
        wf_prop(p),
    ensures
        spec_parse_prop_line(render_prop_line(p)) == Some(p),
{
    let l = render_prop_line(p);
    let k = p.key.len() as int;
    assert(l[k] == ':');
    assert(forall|j: int| 0 <= j < k ==> l[j] == p.key[j] && p.key[j] != ':');
    lemma_first_idx_prefix(l, ':', k);
    assert(l.take(k) =~= p.key);
    assert(l.skip(k + 1) =~= seq![' '] + p.value);
    assert(trim_front(seq![' '] + p.value) == trim_front(p.value)) by {
        assert((seq![' '] + p.value)[0] == ' ');
        assert((seq![' '] + p.value).drop_first() =~= p.value);
    }
    assert(spec_trim(seq![' '] + p.value) == p.value) by {
        assert(trim_back(trim_front(p.value)) == p.value) by {
            lemma_trim_idempotent(p.value);
        }
    }
}

/// Trimming a trimmed text changes nothing.
proof fn lemma_trim_idempotent(v: Seq<char>)
    requires
        spec_trim(v) == v,
    ensures
        trim_back(trim_front(v)) == v,
{
}

/// The rendered front matter scans back as its pairs, leaving what follows
/// the closing delimiter.
proof fn lemma_scan_props_render(ps: Seq<PropModel>, tail: Seq<Seq<char>>)
    requires
        forall|i: int| 0 <= i < ps.len() ==> wf_prop(#[trigger] ps[i]),
    ensures
        scan_props(spec_lines(render_props(ps)) + (seq![delim()] + tail)) == Some((ps, tail)),
    decreases ps.len(),
{
    if ps.len() == 0 {
        let ls = spec_lines(render_props(ps)) + (seq![delim()] + tail);
        assert(ls =~= seq![delim()] + tail);
        assert(ls.first() == delim());
        assert(ls.drop_first() =~= tail);
    } else {
        let p = ps.first();
        let line = render_prop_line(p);
        assert(line_ok(line)) by {
            assert(forall|j: int|
                0 <= j < p.key.len() ==> line[j] == p.key[j] && p.key[j] != '\n');
            assert(forall|j: int|
                p.key.len() + 2 <= j < line.len() ==> line[j] == p.value[j - p.key.len() - 2]
                    && p.value[j - p.key.len() - 2] != '\n');
            assert(line[p.key.len() as int] == ':');
            assert(line[p.key.len() as int + 1] == ' ');
        }
        lemma_lines_acc_line(line, render_props(ps.drop_first()), Seq::empty());
        assert(render_props(ps) =~= line + seq!['\n'] + render_props(ps.drop_first()));
        assert(Seq::<char>::empty() + line =~= line);
        let ls = spec_lines(render_props(ps)) + (seq![delim()] + tail);
        assert(ls =~= seq![line] + (spec_lines(render_props(ps.drop_first())) + (seq![delim()]
            + tail)));
        assert(ls.first() == line);
        lemma_prop_line_not_delim(p);
        lemma_parse_prop_line_render(p);
        lemma_scan_props_render(ps.drop_first(), tail);
        assert(ls.drop_first() =~= spec_lines(render_props(ps.drop_first())) + (seq![delim()]
            + tail));
        assert(seq![p] + ps.drop_first() =~= ps);
    }
}

/// Folding pairs with pairwise distinct keys appends them unchanged.
proof fn lemma_fold_upsert_unique(acc: Seq<PropModel>, ps: Seq<PropModel>)
    requires
        forall|i: int, j: int| 0 <= i < j < ps.len() ==> ps[i].key != ps[j].key,
        forall|i: int, j: int|
            0 <= i < acc.len() && 0 <= j < ps.len() ==> acc[i].key != ps[j].key,
    ensures
        fold_upsert(acc, ps) == acc + ps,
    decreases ps.len(),
{
    if ps.len() == 0 {
        assert(acc + ps =~= acc);
    } else {
        let p = ps.first();
        assert(!has_key(acc, p.key));
        assert(spec_upsert(acc, p) == acc.push(p));
        assert(forall|i: int, j: int|
            0 <= i < acc.push(p).len() && 0 <= j < ps.drop_first().len() ==> acc.push(p)[i].key
                != ps.drop_first()[j].key) by {
            assert(forall|j: int|
                0 <= j < ps.drop_first().len() ==> ps.drop_first()[j] == ps[j + 1]);
        }
        lemma_fold_upsert_unique(acc.push(p), ps.drop_first());
        assert(acc.push(p) + ps.drop_first() =~= acc + ps);
    }
}

/// Parsing inverts rendering: a well-formed document read back from its
/// own rendering is recovered exactly.
pub proof fn lemma_parse_inverts_render(m: ContentModel)
    requires
        wf_content(m),
    ensures
        spec_parse(crate::content::spec_render(m)) == Some(m),
{
    let t = crate::content::spec_render(m);
    if m.props.len() == 0 {
        assert(t =~= render_entries(m.entries));
        let ls = spec_lines(t);
        lemma_parse_entries_render(m.entries);
        if m.entries.len() == 0 {
            assert(ls =~= Seq::<Seq<char>>::empty());
            assert(spec_parse_lines(ls) == Some(
                ContentModel { props: Seq::empty(), entries: Seq::empty() },
            ));
            assert(spec_parse_lines(ls).unwrap() =~= m);
        } else {
            let e0 = m.entries.first();
            lemma_render_entry_nl(e0);
            lemma_lines_append(render_entry(e0), render_entries(m.entries.drop_first()));
            assert(render_entries(m.entries) == render_entry(e0) + render_entries(
                m.entries.drop_first(),
            ));
            lemma_first_line(e0);
            assert(ls.first() == first_body_line(e0)) by {
                assert(ls =~= spec_lines(render_entry(e0)) + spec_lines(
                    render_entries(m.entries.drop_first()),
                ));
            }
            assert(ls.first() != delim());
            assert(ls.first().len() > 0);
            assert(drop_blanks(ls) == ls);
            assert(spec_parse_lines(ls).unwrap() =~= m);
        }
    } else {
        let sep = if m.entries.len() > 0 {
            seq!['\n']
        } else {
            Seq::<char>::empty()
        };
        let body = render_entries(m.entries);
        assert(t =~= delim() + seq!['\n'] + (render_props(m.props) + (delim() + seq!['\n'] + (sep
            + body))));
        assert(line_ok(delim()));
        lemma_lines_acc_line(
            delim(),
            render_props(m.props) + (delim() + seq!['\n'] + (sep + body)),
            Seq::empty(),
        );
        assert(Seq::<char>::empty() + delim() =~= delim());
        let inner = render_props(m.props) + (delim() + seq!['\n'] + (sep + body));
        assert(spec_lines(t) =~= seq![delim()] + spec_lines(inner));
        lemma_render_props_nl(m.props);
        lemma_lines_append(render_props(m.props), delim() + seq!['\n'] + (sep + body));
        lemma_lines_acc_line(delim(), sep + body, Seq::empty());
        assert(delim() + seq!['\n'] + (sep + body) =~= delim() + seq!['\n'] + (sep + body));
        assert(spec_lines(inner) =~= spec_lines(render_props(m.props)) + (seq![delim()]
            + spec_lines(sep + body)));
        lemma_scan_props_render(m.props, spec_lines(sep + body));
        let ls = spec_lines(t);
        assert(ls.first() == delim());
        assert(ls.drop_first() =~= spec_lines(inner));
        assert(scan_props(ls.drop_first()) == Some((m.props, spec_lines(sep + body))));
        lemma_fold_upsert_unique(Seq::empty(), m.props);
        assert(Seq::<PropModel>::empty() + m.props =~= m.props);
        lemma_parse_entries_render(m.entries);
        if m.entries.len() == 0 {
            assert(sep + body =~= Seq::<char>::empty());
            assert(spec_lines(sep + body) =~= Seq::<Seq<char>>::empty());
            assert(spec_parse_lines(ls).unwrap() =~= m);
        } else {
            assert(sep + body =~= Seq::<char>::empty() + seq!['\n'] + body);
            lemma_lines_acc_line(Seq::empty(), body, Seq::empty());
            assert(Seq::<char>::empty() + Seq::<char>::empty() =~= Seq::<char>::empty());
            assert(spec_lines(sep + body) =~= seq![Seq::<char>::empty()] + spec_lines(body));
            let e0 = m.entries.first();
            lemma_render_entry_nl(e0);
            lemma_lines_append(render_entry(e0), render_entries(m.entries.drop_first()));
            lemma_first_line(e0);
            assert(spec_lines(body).first() == first_body_line(e0)) by {
                assert(spec_lines(body) =~= spec_lines(render_entry(e0)) + spec_lines(
                    render_entries(m.entries.drop_first()),
                ));
            }
            assert(drop_blanks(seq![Seq::<char>::empty()] + spec_lines(body)) == drop_blanks(
                spec_lines(body),
            )) by {
                let bls = seq![Seq::<char>::empty()] + spec_lines(body);
                assert(bls.first().len() == 0);
                assert(bls.drop_first() =~= spec_lines(body));
            }
            assert(spec_lines(body).first().len() > 0);
            assert(drop_blanks(spec_lines(body)) == spec_lines(body));
            assert(spec_parse_lines(ls).unwrap() =~= m);
        }
    }
}

/// The first rendered line of a well-formed entry: the line itself, or the
/// opening fence; never empty for a well-formed document head.
proof fn lemma_first_line(e: EntryModel)
    requires
        wf_entry(e),
    ensures
        spec_lines(render_entry(e)).len() > 0,
        spec_lines(render_entry(e)).first() == first_body_line(e),
{
    match e {
        EntryModel::Line(l) => {
            lemma_lines_acc_line(l, Seq::empty(), Seq::empty());
            assert(l + seq!['\n'] + Seq::<char>::empty() =~= render_entry(e));
            assert(Seq::<char>::empty() + l =~= l);
        },
        EntryModel::Block(b) => {
            let fence = ticks() + b.kind;
            assert(line_ok(fence)) by {
                assert(forall|i: int|
                    3 <= i < fence.len() ==> fence[i] == b.kind[i - 3] && b.kind[i - 3] != '\n');
            }
            lemma_lines_acc_line(fence, b.code + ticks() + seq!['\n'], Seq::empty());
            assert(render_entry(e) =~= fence + seq!['\n'] + (b.code + ticks() + seq!['\n']));
            assert(Seq::<char>::empty() + fence =~= fence);
        },
    }
}

/// Any text a render produced parses back to a document that renders to
/// the same text: re-running the system on its own output is stable.
pub proof fn lemma_render_parse_render(m: ContentModel)
    requires
        wf_content(m),
    ensures
        spec_parse(crate::content::spec_render(m)) matches Some(m2)
            && crate::content::spec_render(m2) == crate::content::spec_render(m),
{
    lemma_parse_inverts_render(m);
}

/// One mutation of a document, as `Page` applies them: a property upsert
/// or a prepend-if-absent of an entry.
pub enum Mutation {
    InsertProperty(PropModel),
    PrependEntry(EntryModel),
}

/// The state after one mutation, with whether it changed anything; this is
/// what `Content::insert_property` and `Content::prepend_unique_entry`
/// ensure.
pub open spec fn apply_mutation(m: ContentModel, mu: Mutation) -> (ContentModel, bool) {
    match mu {
        Mutation::InsertProperty(p) => (
            ContentModel { props: spec_upsert(m.props, p), entries: m.entries },
            lookup(m.props, p.key) != Some(p.value),
        ),
        Mutation::PrependEntry(e) => if m.entries.contains(e) {
            (m, false)
        } else {
            (ContentModel { props: m.props, entries: seq![e] + m.entries }, true)
        },
    }
}

/// The state after a sequence of mutations, with whether any changed
/// anything.
pub open spec fn apply_all(m: ContentModel, ms: Seq<Mutation>) -> (ContentModel, bool)
    decreases ms.len(),
{
    if ms.len() == 0 {
        (m, false)
    } else {
        let first = apply_mutation(m, ms.first());
        let rest = apply_all(first.0, ms.drop_first());
        (rest.0, first.1 || rest.1)
    }
}

/// Two mutations do not fight: inserts of one key carry one value.
pub open spec fn agree(a: Mutation, b: Mutation) -> bool {
    match (a, b) {
        (Mutation::InsertProperty(p), Mutation::InsertProperty(q)) => p.key == q.key
            ==> p.value == q.value,
        _ => true,
    }
}

/// No two inserts of the sequence write different values to one key.
pub open spec fn compatible(ms: Seq<Mutation>) -> bool {
    forall|i: int, j: int| 0 <= i < ms.len() && 0 <= j < ms.len() ==> agree(ms[i], ms[j])
}

/// The mutation's effect is present in the state.
pub open spec fn established(st: ContentModel, mu: Mutation) -> bool {
    match mu {
        Mutation::InsertProperty(p) => lookup(st.props, p.key) == Some(p.value),
        Mutation::PrependEntry(e) => st.entries.contains(e),
    }
}

proof fn lemma_key_index_at(ps: Seq<PropModel>, k: Seq<char>, i: int)
    requires
        0 <= i < ps.len(),
        ps[i].key == k,
        forall|j: int| 0 <= j < i ==> ps[j].key != k,
    ensures
        key_index(ps, k) == i,
    decreases i,
{
    if i > 0 {
        lemma_key_index_at(ps.drop_first(), k, i - 1);
    }
}

/// What an upsert leaves at each key: the new value at its own key, and
/// everything else untouched.
pub proof fn lemma_lookup_upsert(ps: Seq<PropModel>, q: PropModel, k: Seq<char>)
    ensures
        k == q.key ==> lookup(spec_upsert(ps, q), k) == Some(q.value),
        k != q.key ==> lookup(spec_upsert(ps, q), k) == lookup(ps, k),
{
    let u = spec_upsert(ps, q);
    if has_key(ps, q.key) {
        crate::content::lemma_key_index(ps, q.key);
        let ki = key_index(ps, q.key);
        assert(u == ps.update(ki, q));
        assert(u[ki] == q);
        if k == q.key {
            assert(has_key(u, k));
            lemma_key_index_at(u, k, ki);
        } else {
            if has_key(ps, k) {
                crate::content::lemma_key_index(ps, k);
                let i = key_index(ps, k);
                assert(i != ki);
                assert(u[i] == ps[i]);
                assert(has_key(u, k));
                lemma_key_index_at(u, k, i);
            } else {
                assert(!has_key(u, k)) by {
                    if has_key(u, k) {
                        let w = choose|i: int| 0 <= i < u.len() && #[trigger] u[i].key == k;
                        assert(w != ki);
                        assert(ps[w].key == k);
                    }
                }
            }
        }
    } else {
        assert(u == ps.push(q));
        assert(forall|j: int| 0 <= j < ps.len() ==> #[trigger] ps[j].key != q.key);
        if k == q.key {
            assert(u[ps.len() as int].key == k);
            assert(has_key(u, k));
            lemma_key_index_at(u, k, ps.len() as int);
        } else {
            if has_key(ps, k) {
                crate::content::lemma_key_index(ps, k);
                let i = key_index(ps, k);
                assert(u[i] == ps[i]);
                assert(has_key(u, k));
                lemma_key_index_at(u, k, i);
            } else {
                assert(!has_key(u, k)) by {
                    if has_key(u, k) {
                        let w = choose|i: int| 0 <= i < u.len() && #[trigger] u[i].key == k;
                        assert(w != ps.len());
                        assert(ps[w].key == k);
                    }
                }
            }
        }
    }
}

/// Inserting the value a key already carries changes nothing.
pub proof fn lemma_upsert_same(ps: Seq<PropModel>, p: PropModel)
    requires
        lookup(ps, p.key) == Some(p.value),
    ensures
        spec_upsert(ps, p) == ps,
{
    crate::content::lemma_key_index(ps, p.key);
    let ki = key_index(ps, p.key);
    assert(ps[ki] =~= p);
    assert(ps.update(ki, p) =~= ps);
}

/// A mutation applied twice is the same as applied once: the second
/// application changes nothing.
pub proof fn lemma_mutation_idempotent(m: ContentModel, mu: Mutation)
    ensures
        apply_mutation(apply_mutation(m, mu).0, mu) == (apply_mutation(m, mu).0, false),
{
    let st = apply_mutation(m, mu).0;
    match mu {
        Mutation::InsertProperty(p) => {
            lemma_lookup_upsert(m.props, p, p.key);
            lemma_upsert_same(st.props, p);
            assert(apply_mutation(st, mu).0 =~= st);
        },
        Mutation::PrependEntry(e) => {
            if !m.entries.contains(e) {
                assert(st.entries[0] == e);
                assert(st.entries.contains(e));
            }
        },
    }
}

proof fn lemma_established_after(st: ContentModel, mu: Mutation)
    ensures
        established(apply_mutation(st, mu).0, mu),
{
    match mu {
        Mutation::InsertProperty(p) => {
            lemma_lookup_upsert(st.props, p, p.key);
        },
        Mutation::PrependEntry(e) => {
            if !st.entries.contains(e) {
                assert(apply_mutation(st, mu).0.entries[0] == e);
            }
        },
    }
}

proof fn lemma_established_preserved_one(st: ContentModel, mu: Mutation, mu2: Mutation)
    requires
        established(st, mu),
        agree(mu, mu2),
        agree(mu2, mu),
    ensures
        established(apply_mutation(st, mu2).0, mu),
{
    let st2 = apply_mutation(st, mu2).0;
    match mu {
        Mutation::InsertProperty(p) => {
            match mu2 {
                Mutation::InsertProperty(q) => {
                    lemma_lookup_upsert(st.props, q, p.key);
                },
                Mutation::PrependEntry(_) => {},
            }
        },
        Mutation::PrependEntry(e) => {
            match mu2 {
                Mutation::InsertProperty(_) => {},
                Mutation::PrependEntry(e2) => {
                    if !st.entries.contains(e2) {
                        let w = choose|i: int|
                            0 <= i < st.entries.len() && st.entries[i] == e;
                        assert(st2.entries[w + 1] == e);
                        assert(st2.entries.contains(e));
                    }
                },
            }
        },
    }
}

proof fn lemma_established_preserved_all(st: ContentModel, mu: Mutation, ms: Seq<Mutation>)
    requires
        established(st, mu),
        forall|j: int| 0 <= j < ms.len() ==> agree(mu, #[trigger] ms[j]) && agree(ms[j], mu),
    ensures
        established(apply_all(st, ms).0, mu),
    decreases ms.len(),
{
    if ms.len() > 0 {
        lemma_established_preserved_one(st, mu, ms.first());
        lemma_established_preserved_all(apply_mutation(st, ms.first()).0, mu, ms.drop_first());
    }
}

proof fn lemma_all_established(m: ContentModel, ms: Seq<Mutation>)
    requires
        compatible(ms),
    ensures
        forall|i: int|
            0 <= i < ms.len() ==> established(apply_all(m, ms).0, #[trigger] ms[i]),
    decreases ms.len(),
{
    if ms.len() > 0 {
        let st1 = apply_mutation(m, ms.first()).0;
        lemma_established_after(m, ms.first());
        assert(established(st1, ms.first()));
        assert(compatible(ms.drop_first())) by {
            assert(forall|i: int, j: int|
                0 <= i < ms.drop_first().len() && 0 <= j < ms.drop_first().len()
                    ==> ms.drop_first()[i] == ms[i + 1] && ms.drop_first()[j] == ms[j + 1]);
        }
        lemma_established_preserved_all(st1, ms.first(), ms.drop_first());
        lemma_all_established(st1, ms.drop_first());
        assert(forall|i: int|
            1 <= i < ms.len() ==> ms.drop_first()[i - 1] == ms[i]);
        assert(apply_all(m, ms).0 == apply_all(st1, ms.drop_first()).0);
    }
}

proof fn lemma_noop(st: ContentModel, mu: Mutation)
    requires
        established(st, mu),
    ensures
        apply_mutation(st, mu) == (st, false),
{
    match mu {
        Mutation::InsertProperty(p) => {
            lemma_upsert_same(st.props, p);
            assert(apply_mutation(st, mu).0 =~= st);
        },
        Mutation::PrependEntry(_) => {},
    }
}

proof fn lemma_second_pass(st: ContentModel, ms: Seq<Mutation>)
    requires
        forall|i: int| 0 <= i < ms.len() ==> established(st, #[trigger] ms[i]),
    ensures
        apply_all(st, ms) == (st, false),
    decreases ms.len(),
{
    if ms.len() > 0 {
        lemma_noop(st, ms.first());
        assert(forall|i: int|
            0 <= i < ms.drop_first().len() ==> ms.drop_first()[i] == ms[i + 1]);
        lemma_second_pass(st, ms.drop_first());
    }
}

/// Re-running the same sequence of mutations against the document it
/// produced changes nothing and reports no change, provided no two inserts
/// of the sequence write different values to the same key.
pub proof fn lemma_rerun_produces_no_changes(m: ContentModel, ms: Seq<Mutation>)
    requires
        compatible(ms),
    ensures
        apply_all(apply_all(m, ms).0, ms) == (apply_all(m, ms).0, false),
{
    lemma_all_established(m, ms);
    lemma_second_pass(apply_all(m, ms).0, ms);
}

} // verus!