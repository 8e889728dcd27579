//! Vault configuration: layered configuration records folded with
//! first-writer-wins fields and deduplicated event file lists.

use crate::options::PageSettings;
use vstd::prelude::*;

verus! {

/// One configuration record, as read from one configuration block.
#[derive(Debug, Clone)]
pub struct SerdeConfig {
    pub journals_folder: Option<String>,
    pub settings: PageSettings,
    pub event_files: Vec<String>,
}

/// File names folded with "append when not already present".
pub open spec fn merge_files(a: Seq<Seq<char>>, b: Seq<Seq<char>>) -> Seq<Seq<char>>
    decreases b.len(),
{
    if b.len() == 0 {
        a
    } else {
        merge_files(
            if a.contains(b.first()) {
                a
            } else {
                a.push(b.first())
            },
            b.drop_first(),
        )
    }
}

impl SerdeConfig {
    /// The built-in configuration: no folder, no settings, and the one
    /// default event file.
    pub fn new_default() -> (r: SerdeConfig)
        ensures
            r.journals_folder is None,
            r.settings.day is None && r.settings.week is None && r.settings.month is None
                && r.settings.year is None,
            r.event_files@.map_values(|f: String| f@) == seq!["events/recurring.md"@],
    {
        let mut files: Vec<String> = Vec::new();
        files.push("events/recurring.md".to_owned());
        let r = SerdeConfig {
            journals_folder: None,
            settings: PageSettings { day: None, week: None, month: None, year: None },
            event_files: files,
        };
        proof {
            assert(r.event_files@.map_values(|f: String| f@) =~= seq!["events/recurring.md"@]);
        }
        r
    }

    /// Fold another record in: the first record's choices win, and the
    /// other's event files are appended when not already listed.
    pub fn merge(self, other: SerdeConfig) -> (r: SerdeConfig)
        ensures
            r.journals_folder == (if self.journals_folder is Some {
                self.journals_folder
            } else {
                other.journals_folder
            }),
            r.settings.day == (if self.settings.day is Some {
                self.settings.day
            } else {
                other.settings.day
            }),
            r.settings.week == (if self.settings.week is Some {
                self.settings.week
            } else {
                other.settings.week
            }),
            r.settings.month == (if self.settings.month is Some {
                self.settings.month
            } else {
                other.settings.month
            }),
            r.settings.year == (if self.settings.year is Some {
                self.settings.year
            } else {
                other.settings.year
            }),
            r.event_files@.map_values(|f: String| f@) == merge_files(
                self.event_files@.map_values(|f: String| f@),
                other.event_files@.map_values(|f: String| f@),
            ),
    {
        let journals_folder = match self.journals_folder {
            Some(f) => Some(f),
            None => other.journals_folder,
        };
        let settings = PageSettings {
            day: match self.settings.day {
                Some(s) => Some(s),
                None => other.settings.day,
            },
            week: match self.settings.week {
                Some(s) => Some(s),
                None => other.settings.week,
            },
            month: match self.settings.month {
                Some(s) => Some(s),
                None => other.settings.month,
            },
            year: match self.settings.year {
                Some(s) => Some(s),
                None => other.settings.year,
            },
        };
        let ghost av = self.event_files@.map_values(|f: String| f@);
        let ghost bv = other.event_files@.map_values(|f: String| f@);
        let mut files = self.event_files;
        let mut rest = other.event_files;
        let ghost mut k: int = 0;
        proof {
            assert(bv.skip(0) =~= bv);
        }
        while rest.len() > 0
            invariant
                0 <= k <= bv.len(),
                rest@.map_values(|f: String| f@) == bv.skip(k),
                merge_files(av, bv) == merge_files(
                    files@.map_values(|f: String| f@),
                    bv.skip(k),
                ),
            decreases rest@.len(),
        {
            let ghost prev = rest@.map_values(|f: String| f@);
            let f = rest.remove(0);
            proof {
                assert(prev[0] == f@);
                assert(prev[0] == bv.skip(k)[0]);
                assert(bv.skip(k)[0] == bv[k]);
                assert(rest@.map_values(|f: String| f@) =~= bv.skip(k + 1)) by {
                    assert(forall|j: int|
                        0 <= j < rest@.len() ==> rest@.map_values(|f: String| f@)[j] == rest@[j]@
                            && rest@[j]@ == prev[j + 1] && prev[j + 1] == bv.skip(k)[j + 1]
                            && bv.skip(k)[j + 1] == bv[k + j + 1] && bv.skip(k + 1)[j] == bv[k + j
                            + 1]);
                }
                assert(bv.skip(k).first() == bv[k]);
                assert(bv.skip(k).drop_first() =~= bv.skip(k + 1));
            }
            let present = contains_string(&files, &f);
            if !present {
                let ghost fv = files@.map_values(|f: String| f@);
                files.push(f);
                proof {
                    assert(files@.map_values(|f: String| f@) =~= fv.push(bv[k]));
                }
            }
            proof {
                k = k + 1;
            }
        }
        proof {
            assert(bv.skip(bv.len() as int) =~= Seq::<Seq<char>>::empty());
        }
        SerdeConfig { journals_folder, settings, event_files: files }
    }
}

fn contains_string(v: &Vec<String>, s: &String) -> (r: bool)
    ensures
        r == v@.map_values(|f: String| f@).contains(s@),
{
    let ghost m = v@.map_values(|f: String| f@);
    let mut i: usize = 0;
    while i < v.len()
        invariant
            i <= v@.len(),
            m == v@.map_values(|f: String| f@),
            m.len() == v@.len(),
            forall|j: int| 0 <= j < i ==> m[j] != s@,
        decreases v@.len() - i,
    {
        if v[i] == *s {
            proof {
                assert(m[i as int] == s@);
                assert(m.contains(s@));
            }
            return true;
        }
        i = i + 1;
    }
    false
}

/// The settled configuration of a vault: its path, the journals folder,
/// the page settings and the event files to read.
#[derive(Debug)]
pub struct Config {
    pub path: String,
    pub journals_folder: Option<String>,
    pub settings: PageSettings,
    pub event_files: Vec<String>,
}

impl Config {
    /// Settle a merged record for the vault at `path`; a folder from the
    /// editor's own daily-notes configuration wins over the record's.
    pub fn new(path: String, merged: SerdeConfig, daily_notes_folder: Option<String>) -> (r:
        Config)
        ensures
            r.path == path,
            r.journals_folder == (if daily_notes_folder is Some {
                daily_notes_folder
            } else {
                merged.journals_folder
            }),
            r.settings == merged.settings,
            r.event_files == merged.event_files,
    {
        let journals_folder = match daily_notes_folder {
            Some(f) => Some(f),
            None => merged.journals_folder,
        };
        Config {
            path,
            journals_folder,
            settings: merged.settings,
            event_files: merged.event_files,
        }
    }

    /// The vault's path.
    pub fn path(&self) -> (r: &str)
        ensures
            r@ == self.path@,
    {
        self.path.as_str()
    }

    /// The journals folder, when one is configured.
    pub fn journals_folder(&self) -> (r: Option<&str>)
        ensures
            match r {
                Some(f) => self.journals_folder matches Some(g) && f@ == g@,
                None => self.journals_folder is None,
            },
    {
        match &self.journals_folder {
            Some(f) => Some(f.as_str()),
            None => None,
        }
    }

    /// The page settings the configuration chose.
    pub fn settings(&self) -> (r: &PageSettings)
        ensures
            r == self.settings,
    {
        &self.settings
    }
}

} // verus!
