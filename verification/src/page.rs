//! A page: a document with its load state and a flag that records whether
//! any mutation actually changed it, so the caller can skip a rewrite.

use crate::content::{
    lookup, spec_parse, spec_render, spec_upsert, Content, ContentError, Entry, EntryModel,
    PropModel,
};
use vstd::prelude::*;

verus! {

/// A loaded page: its content, whether the backing file existed, and
/// whether a mutation changed the content since it was loaded or written.
#[derive(Debug)]
pub struct Page {
    pub content: Content,
    pub file_exists: bool,
    pub modified: bool,
}

impl Page {
    /// The page of a file that is not there: an empty document.
    pub fn absent() -> (r: Page)
        ensures
            r.content@.props.len() == 0,
            r.content@.entries.len() == 0,
            !r.file_exists,
            !r.modified,
    {
        Page { content: Content::new(), file_exists: false, modified: false }
    }

    /// The page of an existing file, from its text; fails as parsing does.
    pub fn from_text(text: &str) -> (r: Result<Page, ContentError>)
        ensures
            match spec_parse(text@) {
                Some(m) => r matches Ok(p) && p.content@ == m && p.file_exists && !p.modified,
                None => r is Err,
            },
    {
        match Content::parse(text) {
            Ok(content) => Ok(Page { content, file_exists: true, modified: false }),
            Err(e) => Err(e),
        }
    }

    /// The page's text, to be written back verbatim.
    pub fn render(&self) -> (r: String)
        ensures
            r@ == spec_render(self.content@),
    {
        self.content.render()
    }

    /// The body entries, in order.
    pub fn entries(&self) -> (r: &Vec<Entry>)
        ensures
            r@.map_values(|e: Entry| e@) == self.content@.entries,
    {
        &self.content.entries
    }

    /// A mutation changed the content since load or last write.
    pub fn modified(&self) -> (r: bool)
        ensures
            r == self.modified,
    {
        self.modified
    }

    /// The backing file was present when the page was loaded.
    pub fn file_exists(&self) -> (r: bool)
        ensures
            r == self.file_exists,
    {
        self.file_exists
    }

    /// Record a completed write: the file now exists and is up to date.
    pub fn mark_written(&mut self)
        ensures
            final(self).content == old(self).content,
            final(self).file_exists,
            !final(self).modified,
    {
        self.file_exists = true;
        self.modified = false;
    }

    /// Insert or overwrite a property; the page counts as modified only
    /// when the document actually changed.
    pub fn insert_property(&mut self, key: String, value: String)
        ensures
            final(self).content@.props == spec_upsert(
                old(self).content@.props,
                PropModel { key: key@, value: value@ },
            ),
            final(self).content@.entries == old(self).content@.entries,
            final(self).file_exists == old(self).file_exists,
            final(self).modified == (old(self).modified || lookup(
                old(self).content@.props,
                key@,
            ) != Some(value@)),
    {
        let changed = self.content.insert_property(key, value);
        if changed {
            self.modified = true;
        }
    }

    /// Prepend a line unless an equal line entry is already present; the
    /// page counts as modified only when the document actually changed.
    pub fn prepend_line(&mut self, line: String)
        ensures
            final(self).content@.props == old(self).content@.props,
            final(self).file_exists == old(self).file_exists,
            old(self).content@.entries.contains(EntryModel::Line(line@))
                ==> final(self).content@.entries == old(self).content@.entries
                && final(self).modified == old(self).modified,
            !old(self).content@.entries.contains(EntryModel::Line(line@))
                ==> final(self).content@.entries == seq![EntryModel::Line(line@)]
                + old(self).content@.entries && final(self).modified,
    {
        let changed = self.content.prepend_unique_entry(Entry::Line(line));
        if changed {
            self.modified = true;
        }
    }

    /// Prepend each line that is not already present, last given first, so
    /// the new lines read in their given order at the top of the page.
    pub fn prepend_lines(&mut self, lines: Vec<String>)
        ensures
            final(self).content@.props == old(self).content@.props,
            final(self).file_exists == old(self).file_exists,
            final(self).content@.entries == spec_prepend_lines(
                old(self).content@.entries,
                lines@.map_values(|l: String| l@),
            ),
            final(self).modified == (old(self).modified || final(self).content@.entries.len()
                > old(self).content@.entries.len()),
    {
        let ghost lv = lines@.map_values(|l: String| l@);
        let mut lines = lines;
        proof {
            assert(lv.take(lv.len() as int) =~= lv);
            assert(lv.skip(lv.len() as int) =~= Seq::<Seq<char>>::empty());
        }
        while lines.len() > 0
            invariant
                lines@.len() <= lv.len(),
                lines@.map_values(|l: String| l@) == lv.take(lines@.len() as int),
                self.content@.props == old(self).content@.props,
                self.file_exists == old(self).file_exists,
                self.content@.entries == spec_prepend_lines(
                    old(self).content@.entries,
                    lv.skip(lines@.len() as int),
                ),
                self.content@.entries.len() >= old(self).content@.entries.len(),
                self.modified == (old(self).modified
                    || self.content@.entries.len() > old(self).content@.entries.len()),
            decreases lines@.len(),
        {
            let ghost n = lines@.len() as int;
            let ghost prev = lines@;
            let l = lines.pop().unwrap();
            proof {
                assert(prev.map_values(|l: String| l@)[n - 1] == lv.take(n)[n - 1]);
                assert(l@ == lv[n - 1]);
                assert(lines@ =~= prev.take(n - 1));
                assert(lines@.map_values(|l: String| l@) =~= lv.take(n - 1)) by {
                    assert(forall|j: int|
                        0 <= j < n - 1 ==> lines@.map_values(|l: String| l@)[j] == lines@[j]@
                            && lines@[j] == prev[j] && prev.map_values(|l: String| l@)[j]
                            == prev[j]@ && prev.map_values(|l: String| l@)[j] == lv.take(n)[j]);
                }
                assert(lv.skip(n - 1).first() == lv[n - 1]);
                assert(lv.skip(n - 1).drop_first() =~= lv.skip(n));
            }
            self.prepend_line(l);
        }
        proof {
            assert(lv.skip(0) =~= lv);
        }
    }
}

/// The entries after prepending each line, last first, skipping those
/// already present.
pub open spec fn spec_prepend_one(es: Seq<EntryModel>, l: Seq<char>) -> Seq<EntryModel> {
    if es.contains(EntryModel::Line(l)) {
        es
    } else {
        seq![EntryModel::Line(l)] + es
    }
}

/// The entries after prepending the lines back to front.
pub open spec fn spec_prepend_lines(es: Seq<EntryModel>, ls: Seq<Seq<char>>) -> Seq<EntryModel>
    decreases ls.len(),
{
    if ls.len() == 0 {
        es
    } else {
        spec_prepend_one(spec_prepend_lines(es, ls.drop_first()), ls.first())
    }
}

} // verus!
