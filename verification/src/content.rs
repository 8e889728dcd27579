//! The document model: a key/value front-matter header and an ordered body
//! of lines and fenced code blocks, with parsing, rendering and idempotent
//! mutation.

use crate::text::{first_idx, push_char, spec_lines, spec_trim, spec_unlines, split_lines, trim};
use vstd::prelude::*;

verus! {

/// Mathematical form of a `Property`.
#[verifier::ext_equal]
pub struct PropModel {
    pub key: Seq<char>,
    pub value: Seq<char>,
}

/// Mathematical form of a `CodeBlock`.
#[verifier::ext_equal]
pub struct BlockModel {
    pub kind: Seq<char>,
    pub code: Seq<char>,
}

/// Mathematical form of an `Entry`.
#[verifier::ext_equal]
pub enum EntryModel {
    Line(Seq<char>),
    Block(BlockModel),
}

/// Mathematical form of a `Content`.
#[verifier::ext_equal]
pub struct ContentModel {
    pub props: Seq<PropModel>,
    pub entries: Seq<EntryModel>,
}

/// One `key: value` pair of the front-matter header.
#[derive(Debug, Clone)]
pub struct Property {
    pub key: String,
    pub value: String,
}

impl View for Property {
    type V = PropModel;

    open spec fn view(&self) -> PropModel {
        PropModel { key: self.key@, value: self.value@ }
    }
}

impl PartialEq for Property {
    fn eq(&self, other: &Property) -> (r: bool) {
        self.key == other.key && self.value == other.value
    }
}

impl vstd::std_specs::cmp::PartialEqSpecImpl for Property {
    open spec fn obeys_eq_spec() -> bool {
        true
    }

    open spec fn eq_spec(&self, other: &Property) -> bool {
        self@ == other@
    }
}

/// A fenced code block: the word after the opening fence and the verbatim
/// body, newline-terminated when non-empty.
#[derive(Debug, Clone)]
pub struct CodeBlock {
    pub kind: String,
    pub code: String,
}

impl View for CodeBlock {
    type V = BlockModel;

    open spec fn view(&self) -> BlockModel {
        BlockModel { kind: self.kind@, code: self.code@ }
    }
}

impl PartialEq for CodeBlock {
    fn eq(&self, other: &CodeBlock) -> (r: bool) {
        self.kind == other.kind && self.code == other.code
    }
}

impl vstd::std_specs::cmp::PartialEqSpecImpl for CodeBlock {
    open spec fn obeys_eq_spec() -> bool {
        true
    }

    open spec fn eq_spec(&self, other: &CodeBlock) -> bool {
        self@ == other@
    }
}

impl CodeBlock {
    /// Build a block of the given kind.
    pub fn new(kind: &str, code: String) -> (r: CodeBlock)
        ensures
            r@ == (BlockModel { kind: kind@, code: code@ }),
    {
        CodeBlock { kind: kind.to_owned(), code }
    }

    /// Build a `toml` block, the kind configuration blocks use.
    pub fn toml(code: String) -> (r: CodeBlock)
        ensures
            r@ == (BlockModel { kind: "toml"@, code: code@ }),
    {
        CodeBlock { kind: "toml".to_owned(), code }
    }

    /// The word after the opening fence.
    pub fn kind(&self) -> (r: &str)
        ensures
            r@ == self@.kind,
    {
        self.kind.as_str()
    }

    /// The verbatim body of the block.
    pub fn code(&self) -> (r: &str)
        ensures
            r@ == self@.code,
    {
        self.code.as_str()
    }

    /// The body is empty.
    pub fn is_empty(&self) -> (r: bool)
        ensures
            r == (self@.code.len() == 0),
    {
        self.code.as_str().is_empty()
    }

    /// The block is a `toml` block.
    pub fn is_toml(&self) -> (r: bool)
        ensures
            r == (self@.kind == "toml"@),
    {
        let t: String = "toml".to_owned();
        self.kind == t
    }
}

/// One unit of document body content: a text line or a fenced code block.
#[derive(Debug, Clone)]
pub enum Entry {
    Line(String),
    CodeBlock(CodeBlock),
}

impl View for Entry {
    type V = EntryModel;

    open spec fn view(&self) -> EntryModel {
        match self {
            Entry::Line(l) => EntryModel::Line(l@),
            Entry::CodeBlock(b) => EntryModel::Block(b@),
        }
    }
}

impl PartialEq for Entry {
    fn eq(&self, other: &Entry) -> (r: bool) {
        match (self, other) {
            (Entry::Line(a), Entry::Line(b)) => *a == *b,
            (Entry::CodeBlock(a), Entry::CodeBlock(b)) => *a == *b,
            _ => false,
        }
    }
}

impl vstd::std_specs::cmp::PartialEqSpecImpl for Entry {
    open spec fn obeys_eq_spec() -> bool {
        true
    }

    open spec fn eq_spec(&self, other: &Entry) -> bool {
        self@ == other@
    }
}

impl Entry {
    /// The entry is an empty line or a block with an empty body.
    pub fn is_empty(&self) -> (r: bool)
        ensures
            r == spec_entry_empty(self@),
    {
        match self {
            Entry::Line(l) => l.as_str().is_empty(),
            Entry::CodeBlock(b) => b.is_empty(),
        }
    }
}

/// The entry carries no text: an empty line or a block with an empty body.
pub open spec fn spec_entry_empty(e: EntryModel) -> bool {
    match e {
        EntryModel::Line(l) => l.len() == 0,
        EntryModel::Block(b) => b.code.len() == 0,
    }
}

/// Why a document failed to parse.
#[derive(Debug, Clone, PartialEq, Eq)]
pub enum ContentError {
    /// A front-matter line is not a `key: value` pair; holds the line.
    NotAMapping(String),
}

/// Remove one level of surrounding double quotes, as the property parser
/// does on values.
pub open spec fn spec_dequote(v: Seq<char>) -> Seq<char> {
    if v.len() >= 2 && v[0] == '"' && v.last() == '"' {
        v.subrange(1, v.len() - 1)
    } else {
        v
    }
}

/// Reading of one front-matter line: key before the first colon, value
/// after it, both trimmed, the value unquoted; `None` without a colon.
pub open spec fn spec_parse_prop_line(l: Seq<char>) -> Option<PropModel> {
    let i = first_idx(l, ':');
    if i == l.len() {
        None
    } else {
        Some(
            PropModel {
                key: spec_trim(l.take(i)),
                value: spec_dequote(spec_trim(l.skip(i + 1))),
            },
        )
    }
}

impl Property {
    /// Read a property from a `key: value` line; fails without a colon.
    pub fn parse(s: &str) -> (r: Result<Property, ContentError>)
        ensures
            match spec_parse_prop_line(s@) {
                Some(p) => r matches Ok(q) && q@ == p,
                None => r matches Err(e) && e matches ContentError::NotAMapping(l) && l@ == s@,
            },
    {
        let n = s.unicode_len();
        let i = find_char_str(s, ':');
        if i == n {
            return Err(ContentError::NotAMapping(s.to_owned()));
        }
        let key = trim(s.substring_char(0, i).to_owned().as_str());
        let raw = trim(s.substring_char(i + 1, n).to_owned().as_str());
        let value = dequote(raw);
        Ok(Property { key, value })
    }

    /// The property as a `key: "value"` line.
    pub fn render(&self) -> (r: String)
        ensures
            r@ == self@.key + seq![':', ' ', '"'] + self@.value + seq!['"'],
    {
        let mut out = String::new();
        out.append(self.key.as_str());
        push_char(&mut out, ':');
        push_char(&mut out, ' ');
        push_char(&mut out, '"');
        out.append(self.value.as_str());
        push_char(&mut out, '"');
        proof {
            assert(out@ =~= self@.key + seq![':', ' ', '"'] + self@.value + seq!['"']);
        }
        out
    }

    /// Take the other property's value when the keys agree.
    pub fn update(&mut self, rhs: Property)
        ensures
            old(self)@.key == rhs@.key ==> final(self)@ == (PropModel {
                key: old(self)@.key,
                value: rhs@.value,
            }),
            old(self)@.key != rhs@.key ==> final(self)@ == old(self)@,
    {
        if self.key == rhs.key {
            self.value = rhs.value;
        }
    }
}

fn find_char_str(s: &str, c: char) -> (r: usize)
    ensures
        r as int == first_idx(s@, c),
        r <= s@.len(),
{
    crate::text::find_char(s, c)
}

fn dequote(v: String) -> (r: String)
    ensures
        r@ == spec_dequote(v@),
{
    let n = v.as_str().unicode_len();
    if n >= 2 && v.as_str().get_char(0) == '"' && v.as_str().get_char(n - 1) == '"' {
        v.as_str().substring_char(1, n - 1).to_owned()
    } else {
        v
    }
}

/// The front-matter delimiter line.
pub open spec fn delim() -> Seq<char> {
    seq!['-', '-', '-']
}

/// The code fence characters.
pub open spec fn ticks() -> Seq<char> {
    seq!['`', '`', '`']
}

/// The line opens a fenced code block.
pub open spec fn is_fence(l: Seq<char>) -> bool {
    l.len() >= 3 && l[0] == '`' && l[1] == '`' && l[2] == '`'
}

/// One rendered front-matter line, `key: value`.
pub open spec fn render_prop_line(p: PropModel) -> Seq<char> {
    p.key + seq![':', ' '] + p.value
}

/// The rendered front-matter lines, each followed by a newline.
pub open spec fn render_props(ps: Seq<PropModel>) -> Seq<char>
    decreases ps.len(),
{
    if ps.len() == 0 {
        Seq::empty()
    } else {
        render_prop_line(ps.first()) + seq!['\n'] + render_props(ps.drop_first())
    }
}

/// One rendered entry: its line, or its fences and body.
pub open spec fn render_entry(e: EntryModel) -> Seq<char> {
    match e {
        EntryModel::Line(l) => l + seq!['\n'],
        EntryModel::Block(b) => ticks() + b.kind + seq!['\n'] + b.code + ticks() + seq!['\n'],
    }
}

/// The rendered body entries, in order.
pub open spec fn render_entries(es: Seq<EntryModel>) -> Seq<char>
    decreases es.len(),
{
    if es.len() == 0 {
        Seq::empty()
    } else {
        render_entry(es.first()) + render_entries(es.drop_first())
    }
}

/// The rendered document: the front matter when there are properties, one
/// blank separator when both parts are present, then the body.
pub open spec fn spec_render(m: ContentModel) -> Seq<char> {
    let front = if m.props.len() == 0 {
        Seq::<char>::empty()
    } else {
        delim() + seq!['\n'] + render_props(m.props) + delim() + seq!['\n'] + (
        if m.entries.len() > 0 {
            seq!['\n']
        } else {
            Seq::<char>::empty()
        })
    };
    front + render_entries(m.entries)
}

proof fn lemma_render_props_push(ps: Seq<PropModel>, p: PropModel)
    ensures
        render_props(ps.push(p)) == render_props(ps) + render_prop_line(p) + seq!['\n'],
    decreases ps.len(),
{
    if ps.len() == 0 {
        assert(ps.push(p).first() == p);
        assert(ps.push(p).drop_first() =~= Seq::<PropModel>::empty());
        assert(render_props(Seq::<PropModel>::empty()) =~= Seq::<char>::empty());
        assert(render_props(ps.push(p)) =~= render_prop_line(p) + seq!['\n']);
        assert(render_props(ps) + render_prop_line(p) + seq!['\n'] =~= render_prop_line(p)
            + seq!['\n']);
    } else {
        assert(ps.push(p).drop_first() =~= ps.drop_first().push(p));
        assert(ps.push(p).first() == ps.first());
        lemma_render_props_push(ps.drop_first(), p);
        assert(render_props(ps.push(p)) =~= render_props(ps) + render_prop_line(p) + seq!['\n']);
    }
}

proof fn lemma_render_entries_push(es: Seq<EntryModel>, e: EntryModel)
    ensures
        render_entries(es.push(e)) == render_entries(es) + render_entry(e),
    decreases es.len(),
{
    if es.len() == 0 {
        assert(es.push(e).first() == e);
        assert(es.push(e).drop_first() =~= Seq::<EntryModel>::empty());
        assert(render_entries(Seq::<EntryModel>::empty()) =~= Seq::<char>::empty());
        assert(render_entries(es.push(e)) =~= render_entry(e));
        assert(render_entries(es) + render_entry(e) =~= render_entry(e));
    } else {
        assert(es.push(e).drop_first() =~= es.drop_first().push(e));
        assert(es.push(e).first() == es.first());
        lemma_render_entries_push(es.drop_first(), e);
        assert(render_entries(es.push(e)) =~= render_entries(es) + render_entry(e));
    }
}

/// A page's content: the front-matter properties, in insertion order with
/// unique keys, and the ordered body entries.
#[derive(Debug)]
pub struct Content {
    pub properties: Vec<Property>,
    pub entries: Vec<Entry>,
}

impl View for Content {
    type V = ContentModel;

    open spec fn view(&self) -> ContentModel {
        ContentModel {
            props: self.properties@.map_values(|p: Property| p@),
            entries: self.entries@.map_values(|e: Entry| e@),
        }
    }
}

impl Content {
    /// An empty document.
    pub fn new() -> (r: Content)
        ensures
            r@.props.len() == 0,
            r@.entries.len() == 0,
    {
        let r = Content { properties: Vec::new(), entries: Vec::new() };
        proof {
            assert(r@.props =~= Seq::<PropModel>::empty());
            assert(r@.entries =~= Seq::<EntryModel>::empty());
        }
        r
    }

    /// Render the document; the executable form of `spec_render`.
    pub fn render(&self) -> (r: String)
        ensures
            r@ == spec_render(self@),
    {
        let ghost m = self@;
        let mut out = String::new();
        if self.properties.len() > 0 {
            proof {
                reveal_strlit("---");
                assert("---"@ =~= delim());
            }
            out.append("---");
            push_char(&mut out, '\n');
            let mut i: usize = 0;
            while i < self.properties.len()
                invariant
                    i <= self.properties@.len(),
                    m == self@,
                    m.props.len() == self.properties@.len(),
                    out@ == delim() + seq!['\n'] + render_props(m.props.take(i as int)),
                decreases self.properties@.len() - i,
            {
                let p = &self.properties[i];
                out.append(p.key.as_str());
                push_char(&mut out, ':');
                push_char(&mut out, ' ');
                out.append(p.value.as_str());
                push_char(&mut out, '\n');
                proof {
                    lemma_render_props_push(m.props.take(i as int), m.props[i as int]);
                    assert(m.props.take(i as int).push(m.props[i as int]) =~= m.props.take(
                        i as int + 1,
                    ));
                    assert(out@ =~= delim() + seq!['\n'] + render_props(m.props.take(i as int + 1)));
                }
                i = i + 1;
            }
            proof {
                assert(m.props.take(m.props.len() as int) =~= m.props);
                reveal_strlit("---");
                assert("---"@ =~= delim());
            }
            out.append("---");
            push_char(&mut out, '\n');
            if self.entries.len() > 0 {
                push_char(&mut out, '\n');
            }
        }
        let ghost front = out@;
        proof {
            assert(out@ =~= front + render_entries(m.entries.take(0)));
        }
        let mut i: usize = 0;
        while i < self.entries.len()
            invariant
                i <= self.entries@.len(),
                m == self@,
                m.entries.len() == self.entries@.len(),
                out@ == front + render_entries(m.entries.take(i as int)),
            decreases self.entries@.len() - i,
        {
            match &self.entries[i] {
                Entry::Line(l) => {
                    out.append(l.as_str());
                    push_char(&mut out, '\n');
                },
                Entry::CodeBlock(b) => {
                    proof {
                        reveal_strlit("```");
                        assert("```"@ =~= ticks());
                    }
                    out.append("```");
                    out.append(b.kind.as_str());
                    push_char(&mut out, '\n');
                    out.append(b.code.as_str());
                    out.append("```");
                    push_char(&mut out, '\n');
                },
            }
            proof {
                lemma_render_entries_push(m.entries.take(i as int), m.entries[i as int]);
                assert(m.entries.take(i as int).push(m.entries[i as int]) =~= m.entries.take(
                    i as int + 1,
                ));
                assert(out@ =~= front + render_entries(m.entries.take(i as int + 1)));
            }
            i = i + 1;
        }
        proof {
            assert(m.entries.take(m.entries.len() as int) =~= m.entries);
            if m.props.len() == 0 {
                assert(front =~= Seq::<char>::empty());
                assert(out@ =~= spec_render(m));
            } else {
                assert(out@ =~= spec_render(m));
            }
        }
        out
    }
}

/// Ghost state of the entry scanner: the open block's kind and the body
/// lines collected so far.
pub struct BlockAcc {
    pub kind: Seq<char>,
    pub lines: Seq<Seq<char>>,
}

/// Leading blank lines, dropped before the first entry.
pub open spec fn drop_blanks(ls: Seq<Seq<char>>) -> Seq<Seq<char>>
    decreases ls.len(),
{
    if ls.len() > 0 && ls.first().len() == 0 {
        drop_blanks(ls.drop_first())
    } else {
        ls
    }
}

/// The body entries read from `ls`, one line at a time: a fence opens a
/// block, the matching fence closes it, and a block still open at the end
/// of input is kept.
pub open spec fn spec_parse_entries(ls: Seq<Seq<char>>, st: Option<BlockAcc>) -> Seq<EntryModel>
    decreases ls.len(),
{
    if ls.len() == 0 {
        match st {
            None => Seq::empty(),
            Some(acc) => seq![
                EntryModel::Block(BlockModel { kind: acc.kind, code: spec_unlines(acc.lines) }),
            ],
        }
    } else {
        match st {
            None => if is_fence(ls.first()) {
                spec_parse_entries(
                    ls.drop_first(),
                    Some(BlockAcc { kind: ls.first().skip(3), lines: Seq::empty() }),
                )
            } else {
                seq![EntryModel::Line(ls.first())] + spec_parse_entries(ls.drop_first(), None)
            },
            Some(acc) => if ls.first() == ticks() {
                seq![
                    EntryModel::Block(
                        BlockModel { kind: acc.kind, code: spec_unlines(acc.lines) },
                    ),
                ] + spec_parse_entries(ls.drop_first(), None)
            } else {
                spec_parse_entries(
                    ls.drop_first(),
                    Some(BlockAcc { kind: acc.kind, lines: acc.lines.push(ls.first()) }),
                )
            },
        }
    }
}

/// The front-matter pairs before the closing delimiter, in source order,
/// and the lines after it; `None` on a line that is not a pair.
pub open spec fn scan_props(ls: Seq<Seq<char>>) -> Option<(Seq<PropModel>, Seq<Seq<char>>)>
    decreases ls.len(),
{
    if ls.len() == 0 {
        Some((Seq::empty(), Seq::empty()))
    } else if ls.first() == delim() {
        Some((Seq::empty(), ls.drop_first()))
    } else {
        match spec_parse_prop_line(ls.first()) {
            None => None,
            Some(p) => match scan_props(ls.drop_first()) {
                None => None,
                Some((ps, rest)) => Some((seq![p] + ps, rest)),
            },
        }
    }
}

/// There is a property with this key.
pub open spec fn has_key(ps: Seq<PropModel>, k: Seq<char>) -> bool {
    exists|i: int| 0 <= i < ps.len() && #[trigger] ps[i].key == k
}

/// Index of the first property with this key.
pub open spec fn key_index(ps: Seq<PropModel>, k: Seq<char>) -> int
    decreases ps.len(),
{
    if ps.len() == 0 {
        0
    } else if ps.first().key == k {
        0
    } else {
        1 + key_index(ps.drop_first(), k)
    }
}

/// The value at this key, if any.
pub open spec fn lookup(ps: Seq<PropModel>, k: Seq<char>) -> Option<Seq<char>> {
    if has_key(ps, k) {
        Some(ps[key_index(ps, k)].value)
    } else {
        None
    }
}

/// Insert or overwrite: a present key keeps its position and takes the new
/// value, an absent key is appended.
pub open spec fn spec_upsert(ps: Seq<PropModel>, p: PropModel) -> Seq<PropModel> {
    if has_key(ps, p.key) {
        ps.update(key_index(ps, p.key), p)
    } else {
        ps.push(p)
    }
}

/// The pairs folded into a mapping, first to last.
pub open spec fn fold_upsert(acc: Seq<PropModel>, ps: Seq<PropModel>) -> Seq<PropModel>
    decreases ps.len(),
{
    if ps.len() == 0 {
        acc
    } else {
        fold_upsert(spec_upsert(acc, ps.first()), ps.drop_first())
    }
}

/// `key_index` finds the first property with the key.
pub proof fn lemma_key_index(ps: Seq<PropModel>, k: Seq<char>)
    requires
        has_key(ps, k),
    ensures
        0 <= key_index(ps, k) < ps.len(),
        ps[key_index(ps, k)].key == k,
        forall|j: int| 0 <= j < key_index(ps, k) ==> ps[j].key != k,
    decreases ps.len(),
{
    if ps.first().key == k {
    } else {
        assert(has_key(ps.drop_first(), k)) by {
            let w = choose|i: int| 0 <= i < ps.len() && #[trigger] ps[i].key == k;
            assert(ps.drop_first()[w - 1].key == k);
        }
        lemma_key_index(ps.drop_first(), k);
        let ki = key_index(ps.drop_first(), k);
        assert(ps[ki + 1] == ps.drop_first()[ki]);
        assert(forall|j: int| 1 <= j < ki + 1 ==> ps[j] == ps.drop_first()[j - 1]);
    }
}

proof fn lemma_fold_upsert_push(acc: Seq<PropModel>, ps: Seq<PropModel>, p: PropModel)
    ensures
        fold_upsert(acc, ps.push(p)) == spec_upsert(fold_upsert(acc, ps), p),
    decreases ps.len(),
{
    if ps.len() == 0 {
        assert(ps.push(p).first() == p);
        assert(ps.push(p).drop_first() =~= Seq::<PropModel>::empty());
        assert(fold_upsert(spec_upsert(acc, p), Seq::empty()) == spec_upsert(acc, p));
    } else {
        assert(ps.push(p).first() == ps.first());
        assert(ps.push(p).drop_first() =~= ps.drop_first().push(p));
        lemma_fold_upsert_push(spec_upsert(acc, ps.first()), ps.drop_first(), p);
    }
}

/// A scan suffix combined with pairs already read.
pub open spec fn scan_combine(
    ps: Seq<PropModel>,
    o: Option<(Seq<PropModel>, Seq<Seq<char>>)>,
) -> Option<(Seq<PropModel>, Seq<Seq<char>>)> {
    match o {
        None => None,
        Some((qs, rest)) => Some((ps + qs, rest)),
    }
}

/// The parsed document: front matter folded into the properties when the
/// text opens with the delimiter, then the body entries with leading blank
/// lines dropped; `None` when a front-matter line is not a pair.
pub open spec fn spec_parse_lines(ls: Seq<Seq<char>>) -> Option<ContentModel> {
    if ls.len() > 0 && ls.first() == delim() {
        match scan_props(ls.drop_first()) {
            None => None,
            Some((pairs, rest)) => Some(
                ContentModel {
                    props: fold_upsert(Seq::empty(), pairs),
                    entries: spec_parse_entries(drop_blanks(rest), None),
                },
            ),
        }
    } else {
        Some(
            ContentModel {
                props: Seq::empty(),
                entries: spec_parse_entries(drop_blanks(ls), None),
            },
        )
    }
}

/// The parsed document of a text, by its lines.
pub open spec fn spec_parse(t: Seq<char>) -> Option<ContentModel> {
    spec_parse_lines(spec_lines(t))
}

fn line_is_delim(l: &String) -> (r: bool)
    ensures
        r == (l@ == delim()),
{
    let s = l.as_str();
    if s.unicode_len() == 3 && s.get_char(0) == '-' && s.get_char(1) == '-' && s.get_char(2)
        == '-' {
        proof {
            assert(l@ =~= delim());
        }
        true
    } else {
        proof {
            if l@ == delim() {
                assert(l@.len() == 3 && l@[0] == '-' && l@[1] == '-' && l@[2] == '-');
            }
        }
        false
    }
}

fn line_is_ticks(l: &String) -> (r: bool)
    ensures
        r == (l@ == ticks()),
{
    let s = l.as_str();
    if s.unicode_len() == 3 && s.get_char(0) == '`' && s.get_char(1) == '`' && s.get_char(2)
        == '`' {
        proof {
            assert(l@ =~= ticks());
        }
        true
    } else {
        proof {
            if l@ == ticks() {
                assert(l@.len() == 3 && l@[0] == '`' && l@[1] == '`' && l@[2] == '`');
            }
        }
        false
    }
}

fn line_fence_kind(l: &String) -> (r: Option<String>)
    ensures
        r is Some <==> is_fence(l@),
        r matches Some(k) ==> k@ == l@.skip(3),
{
    let s = l.as_str();
    let n = s.unicode_len();
    if n >= 3 && s.get_char(0) == '`' && s.get_char(1) == '`' && s.get_char(2) == '`' {
        Some(s.substring_char(3, n).to_owned())
    } else {
        None
    }
}

proof fn lemma_unlines_push(ls: Seq<Seq<char>>, l: Seq<char>)
    ensures
        spec_unlines(ls.push(l)) == spec_unlines(ls) + l + seq!['\n'],
    decreases ls.len(),
{
    if ls.len() == 0 {
        assert(ls.push(l).first() == l);
        assert(ls.push(l).drop_first() =~= Seq::<Seq<char>>::empty());
        assert(spec_unlines(Seq::<Seq<char>>::empty()) =~= Seq::<char>::empty());
        assert(spec_unlines(ls.push(l)) =~= l + seq!['\n']);
        assert(spec_unlines(ls) + l + seq!['\n'] =~= l + seq!['\n']);
    } else {
        assert(ls.push(l).first() == ls.first());
        assert(ls.push(l).drop_first() =~= ls.drop_first().push(l));
        lemma_unlines_push(ls.drop_first(), l);
        assert(spec_unlines(ls.push(l)) =~= spec_unlines(ls) + l + seq!['\n']);
    }
}

impl Content {
    /// Add or overwrite a property; position of an existing key is kept.
    fn upsert(&mut self, p: Property) -> (changed: bool)
        ensures
            final(self)@.props == spec_upsert(old(self)@.props, p@),
            final(self)@.entries == old(self)@.entries,
            changed == (lookup(old(self)@.props, p@.key) != Some(p@.value)),
    {
        let ghost m = self@.props;
        let mut i: usize = 0;
        while i < self.properties.len()
            invariant
                i <= self.properties@.len(),
                m == self@.props,
                self@.props == old(self)@.props,
                self@.entries == old(self)@.entries,
                self@.props.len() == self.properties@.len(),
                forall|j: int| 0 <= j < i ==> m[j].key != p@.key,
            decreases self.properties@.len() - i,
        {
            if self.properties[i].key == p.key {
                proof {
                    assert(m[i as int].key == p@.key);
                    lemma_key_index(m, p@.key);
                    assert(key_index(m, p@.key) == i);
                }
                let changed = !(self.properties[i].value == p.value);
                self.properties.set(i, p);
                proof {
                    assert(self@.props =~= spec_upsert(m, p@));
                }
                return changed;
            }
            i = i + 1;
        }
        proof {
            assert(!has_key(m, p@.key));
        }
        self.properties.push(p);
        proof {
            assert(self@.props =~= m.push(p@));
        }
        true
    }

    /// Parse a document from its text; the executable form of
    /// `spec_parse`. Fails on a front-matter line that is not a
    /// `key: value` pair, reporting that line.
    pub fn parse(text: &str) -> (r: Result<Content, ContentError>)
        ensures
            match spec_parse(text@) {
                Some(m) => r matches Ok(c) && c@ == m,
                None => r is Err,
            },
    {
        let lines = split_lines(text);
        let ghost lsv = lines@.map_values(|l: String| l@);
        let mut content = Content::new();
        let mut i: usize = 0;
        proof {
            if lsv.len() > 0 {
                assert(lsv.first() == lines@[0]@);
            }
        }
        if lines.len() > 0 && line_is_delim(&lines[0]) {
            i = 1;
            let ghost mut pairs = Seq::<PropModel>::empty();
            proof {
                assert(scan_combine(pairs, scan_props(lsv.skip(1))) == scan_props(lsv.skip(1)))
                    by {
                    if scan_props(lsv.skip(1)) is Some {
                        let pr = scan_props(lsv.skip(1)).unwrap();
                        assert(pairs + pr.0 =~= pr.0);
                    }
                }
                assert(content@.props =~= fold_upsert(Seq::empty(), pairs));
            }
            loop
                invariant_except_break
                    scan_props(lsv.skip(1)) == scan_combine(pairs, scan_props(lsv.skip(i as int))),
                invariant
                    1 <= i <= lines@.len(),
                    lsv == lines@.map_values(|l: String| l@),
                    lsv == spec_lines(text@),
                    lsv.len() > 0 && lsv.first() == delim(),
                    content@.props == fold_upsert(Seq::empty(), pairs),
                    content@.entries.len() == 0,
                ensures
                    1 <= i <= lines@.len(),
                    content@.entries.len() == 0,
                    scan_props(lsv.skip(1)) is Some,
                    scan_props(lsv.skip(1)).unwrap().1 == lsv.skip(i as int),
                    content@.props == fold_upsert(
                        Seq::empty(),
                        scan_props(lsv.skip(1)).unwrap().0,
                    ),
                decreases lines@.len() - i,
            {
                if i == lines.len() {
                    proof {
                        assert(lsv.skip(i as int) =~= Seq::<Seq<char>>::empty());
                        let pr = scan_props(lsv.skip(1)).unwrap();
                        assert(pairs + Seq::<PropModel>::empty() =~= pairs);
                    }
                    break ;
                }
                proof {
                    assert(lsv.skip(i as int).first() == lsv[i as int]);
                    assert(lsv.skip(i as int).drop_first() =~= lsv.skip(i as int + 1));
                }
                if line_is_delim(&lines[i]) {
                    i = i + 1;
                    proof {
                        assert(pairs + Seq::<PropModel>::empty() =~= pairs);
                    }
                    break ;
                }
                match Property::parse(lines[i].as_str()) {
                    Ok(p) => {
                        let ghost pv = p@;
                        content.upsert(p);
                        proof {
                            lemma_fold_upsert_push(Seq::empty(), pairs, pv);
                            if scan_props(lsv.skip(i as int + 1)) is Some {
                                let pr = scan_props(lsv.skip(i as int + 1)).unwrap();
                                assert(pairs + (seq![pv] + pr.0) =~= pairs.push(pv) + pr.0);
                            }
                            pairs = pairs.push(pv);
                        }
                    },
                    Err(e) => {
                        proof {
                            assert(scan_props(lsv.skip(i as int)) is None);
                            assert(scan_props(lsv.skip(1)) is None);
                            assert(spec_parse_lines(lsv) is None);
                        }
                        return Err(e);
                    },
                }
                i = i + 1;
            }
        }
        let ghost props_done = content@.props;
        let ghost rest0 = lsv.skip(i as int);
        proof {
            if i == 0 {
                assert(lsv.skip(0) =~= lsv);
            }
            assert(spec_parse_lines(lsv) == Some(
                ContentModel {
                    props: props_done,
                    entries: spec_parse_entries(drop_blanks(rest0), None),
                },
            ));
        }
        loop
            invariant
                i <= lines@.len(),
                lsv == lines@.map_values(|l: String| l@),
                content@.props == props_done,
                content@.entries.len() == 0,
                drop_blanks(rest0) == drop_blanks(lsv.skip(i as int)),
            ensures
                i <= lines@.len(),
                content@.props == props_done,
                content@.entries.len() == 0,
                drop_blanks(rest0) == lsv.skip(i as int),
            decreases lines@.len() - i,
        {
            if i == lines.len() {
                proof {
                    assert(lsv.skip(i as int) =~= Seq::<Seq<char>>::empty());
                }
                break ;
            }
            proof {
                assert(lsv.skip(i as int).first() == lsv[i as int]);
                assert(lsv.skip(i as int).drop_first() =~= lsv.skip(i as int + 1));
            }
            if !lines[i].as_str().is_empty() {
                break ;
            }
            i = i + 1;
        }
        let ghost target = spec_parse_entries(lsv.skip(i as int), None);
        let mut cur_block: Option<CodeBlock> = None;
        let ghost mut blines = Seq::<Seq<char>>::empty();
        proof {
            assert(content@.entries + target =~= target);
        }
        while i < lines.len()
            invariant
                i <= lines@.len(),
                lsv == lines@.map_values(|l: String| l@),
                content@.props == props_done,
                cur_block is None ==> target == content@.entries + spec_parse_entries(
                    lsv.skip(i as int),
                    None,
                ),
                cur_block matches Some(cb) ==> cb@.code == spec_unlines(blines) && target
                    == content@.entries + spec_parse_entries(
                    lsv.skip(i as int),
                    Some(BlockAcc { kind: cb@.kind, lines: blines }),
                ),
            decreases lines@.len() - i,
        {
            proof {
                assert(lsv.skip(i as int).first() == lsv[i as int]);
                assert(lsv.skip(i as int).drop_first() =~= lsv.skip(i as int + 1));
            }
            let taken = cur_block;
            cur_block = None;
            match taken {
                None => {
                    match line_fence_kind(&lines[i]) {
                        Some(kind) => {
                            cur_block = Some(CodeBlock { kind, code: String::new() });
                            proof {
                                blines = Seq::<Seq<char>>::empty();
                            }
                        },
                        None => {
                            let ghost prev = content@.entries;
                            content.entries.push(Entry::Line(lines[i].clone()));
                            proof {
                                assert(content@.entries =~= prev.push(
                                    EntryModel::Line(lsv[i as int]),
                                ));
                                assert(prev + (seq![EntryModel::Line(lsv[i as int])]
                                    + spec_parse_entries(lsv.skip(i as int + 1), None))
                                    =~= prev.push(EntryModel::Line(lsv[i as int]))
                                    + spec_parse_entries(lsv.skip(i as int + 1), None));
                            }
                        },
                    }
                },
                Some(cb) => {
                    if line_is_ticks(&lines[i]) {
                        let ghost prev = content@.entries;
                        let ghost bm = cb@;
                        content.entries.push(Entry::CodeBlock(cb));
                        proof {
                            assert(content@.entries =~= prev.push(EntryModel::Block(bm)));
                            assert(prev + (seq![
                                EntryModel::Block(
                                    BlockModel { kind: bm.kind, code: spec_unlines(blines) },
                                ),
                            ] + spec_parse_entries(lsv.skip(i as int + 1), None)) =~= prev.push(
                                EntryModel::Block(bm),
                            ) + spec_parse_entries(lsv.skip(i as int + 1), None));
                        }
                    } else {
                        let mut cb2 = cb;
                        cb2.code.append(lines[i].as_str());
                        push_char(&mut cb2.code, '\n');
                        proof {
                            lemma_unlines_push(blines, lsv[i as int]);
                            blines = blines.push(lsv[i as int]);
                        }
                        cur_block = Some(cb2);
                    }
                },
            }
            i = i + 1;
        }
        proof {
            assert(lsv.skip(lines@.len() as int) =~= Seq::<Seq<char>>::empty());
        }
        match cur_block {
            None => {
                proof {
                    assert(content@.entries + Seq::<EntryModel>::empty() =~= content@.entries);
                }
            },
            Some(cb) => {
                let ghost prev = content@.entries;
                let ghost bm = cb@;
                content.entries.push(Entry::CodeBlock(cb));
                proof {
                    assert(content@.entries =~= prev.push(EntryModel::Block(bm)));
                    assert(prev + seq![
                        EntryModel::Block(
                            BlockModel { kind: bm.kind, code: spec_unlines(blines) },
                        ),
                    ] =~= prev.push(EntryModel::Block(bm)));
                }
            },
        }
        Ok(content)
    }

    /// Insert or overwrite a property, reporting whether anything changed.
    ///
    /// Running it again with the same key and value changes nothing and
    /// reports so; that is what lets the caller skip a rewrite.
    pub fn insert_property(&mut self, key: String, value: String) -> (changed: bool)
        ensures
            final(self)@.props == spec_upsert(
                old(self)@.props,
                PropModel { key: key@, value: value@ },
            ),
            final(self)@.entries == old(self)@.entries,
            changed == (lookup(old(self)@.props, key@) != Some(value@)),
    {
        self.upsert(Property { key, value })
    }

    /// Prepend the entry unless an equal one is already present, reporting
    /// whether anything changed.
    pub fn prepend_unique_entry(&mut self, entry: Entry) -> (changed: bool)
        ensures
            final(self)@.props == old(self)@.props,
            old(self)@.entries.contains(entry@) ==> final(self)@.entries == old(self)@.entries
                && !changed,
            !old(self)@.entries.contains(entry@) ==> final(self)@.entries == seq![entry@] + old(
                self,
            )@.entries && changed,
    {
        let ghost m = self@.entries;
        let mut i: usize = 0;
        while i < self.entries.len()
            invariant
                i <= self.entries@.len(),
                m == self@.entries,
                self@ == old(self)@,
                self@.entries.len() == self.entries@.len(),
                forall|j: int| 0 <= j < i ==> m[j] != entry@,
            decreases self.entries@.len() - i,
        {
            if self.entries[i] == entry {
                proof {
                    assert(m[i as int] == entry@);
                    assert(m.contains(entry@));
                }
                return false;
            }
            i = i + 1;
        }
        proof {
            assert(!m.contains(entry@));
        }
        self.entries.insert(0, entry);
        proof {
            assert(self@.entries =~= seq![entry@] + m);
        }
        true
    }

    /// Fold another document in: its properties overwrite by key, and its
    /// entries are appended when not already present anywhere.
    pub fn merge(&mut self, rhs: Content)
        ensures
            final(self)@.props == fold_upsert(old(self)@.props, rhs@.props),
            final(self)@.entries == merge_entries(old(self)@.entries, rhs@.entries),
    {
        let ghost rp = rhs@.props;
        let ghost re = rhs@.entries;
        let mut rhs = rhs;
        let ghost mut k: int = 0;
        proof {
            assert(rp.skip(0) =~= rp);
            assert(fold_upsert(old(self)@.props, rp.take(0)) == old(self)@.props);
        }
        while rhs.properties.len() > 0
            invariant
                0 <= k <= rp.len(),
                rhs@.props == rp.skip(k),
                rhs@.entries == re,
                self@.props == fold_upsert(old(self)@.props, rp.take(k)),
                self@.entries == old(self)@.entries,
            decreases rhs.properties@.len(),
        {
            proof {
                assert(rhs@.props.len() == rhs.properties@.len());
                assert(0 < rp.skip(k).len());
                assert(rp.skip(k)[0] == rp[k]);
                assert(forall|j: int| 0 <= j < rp.skip(k).len() ==> rp.skip(k)[j] == rp[k + j]);
            }
            let ghost prevv = rhs@;
            let p = rhs.properties.remove(0);
            proof {
                assert(prevv.props[0] == p@);
                assert(prevv.props[0] == rp.skip(k)[0]);
                assert(p@ == rp[k]);
                assert(rhs@.props.len() == rhs.properties@.len());
                assert(rhs@.props =~= rp.skip(k + 1)) by {
                    assert(forall|j: int|
                        0 <= j < rhs@.props.len() ==> rhs@.props[j] == prevv.props[j + 1]
                            && prevv.props[j + 1] == rp[k + j + 1] && rp.skip(k + 1)[j] == rp[k + j
                            + 1]);
                }
                assert(rhs@.entries =~= re);
                lemma_fold_upsert_push(old(self)@.props, rp.take(k), rp[k]);
                assert(rp.take(k).push(rp[k]) =~= rp.take(k + 1));
            }
            self.upsert(p);
            proof {
                k = k + 1;
            }
        }
        proof {
            assert(rp.take(rp.len() as int) =~= rp);
            assert(re.skip(0) =~= re);
            k = 0;
        }
        while rhs.entries.len() > 0
            invariant
                0 <= k <= re.len(),
                rhs@.entries == re.skip(k),
                self@.props == fold_upsert(old(self)@.props, rp),
                merge_entries(old(self)@.entries, re) == merge_entries(self@.entries, re.skip(k)),
            decreases rhs.entries@.len(),
        {
            proof {
                assert(rhs@.entries.len() == rhs.entries@.len());
                assert(0 < re.skip(k).len());
                assert(re.skip(k)[0] == re[k]);
                assert(forall|j: int| 0 <= j < re.skip(k).len() ==> re.skip(k)[j] == re[k + j]);
            }
            let ghost prevv = rhs@;
            let e = rhs.entries.remove(0);
            proof {
                assert(prevv.entries[0] == e@);
                assert(prevv.entries[0] == re.skip(k)[0]);
                assert(e@ == re[k]);
                assert(rhs@.entries.len() == rhs.entries@.len());
                assert(rhs@.entries =~= re.skip(k + 1)) by {
                    assert(forall|j: int|
                        0 <= j < rhs@.entries.len() ==> rhs@.entries[j] == prevv.entries[j + 1]
                            && prevv.entries[j + 1] == re[k + j + 1] && re.skip(k + 1)[j] == re[k
                            + j + 1]);
                }
                assert(re.skip(k).first() == re[k]);
                assert(re.skip(k).drop_first() =~= re.skip(k + 1));
            }
            let present = self.contains_entry(&e);
            if !present {
                let ghost prev_entries = self@.entries;
                self.entries.push(e);
                proof {
                    assert(self@.entries =~= prev_entries.push(re[k]));
                }
            }
            proof {
                k = k + 1;
            }
        }
        proof {
            assert(re.skip(re.len() as int) =~= Seq::<EntryModel>::empty());
        }
    }

    /// Whether some entry equal to the given one is present.
    fn contains_entry(&self, entry: &Entry) -> (r: bool)
        ensures
            r == self@.entries.contains(entry@),
    {
        let mut i: usize = 0;
        while i < self.entries.len()
            invariant
                i <= self.entries@.len(),
                self@.entries.len() == self.entries@.len(),
                forall|j: int| 0 <= j < i ==> self@.entries[j] != entry@,
            decreases self.entries@.len() - i,
        {
            if self.entries[i] == *entry {
                proof {
                    assert(self@.entries[i as int] == entry@);
                    assert(self@.entries.contains(entry@));
                }
                return true;
            }
            i = i + 1;
        }
        false
    }
}

/// The fold that merging performs on entries: append each right-hand entry
/// that is not already present.
pub open spec fn merge_entries(a: Seq<EntryModel>, b: Seq<EntryModel>) -> Seq<EntryModel>
    decreases b.len(),
{
    if b.len() == 0 {
        a
    } else {
        merge_entries(
            if a.contains(b.first()) {
                a
            } else {
                a.push(b.first())
            },
            b.drop_first(),
        )
    }
}

} // verus!