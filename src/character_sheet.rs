//! The skill table of one character, and the parser for the text that the
//! in-page extraction script hands back.
use vstd::prelude::*;

use crate::text::{fields, i32_of, parse_i32, split_on, string_views, Separator};

verus! {

/// Where the browser automation service listens, and how many seconds a page
/// may take to show its skill table.
#[derive(Clone, Debug)]
pub struct Headless {
    pub service_url: String,
    pub timeout: u64,
}

/// Why a character sheet could not be read.
#[derive(Clone, Copy, Debug, PartialEq, Eq, Structural)]
pub enum ExtractError {
    /// The browser automation service could not be reached.
    Connection,
    /// The skill table did not appear before the timeout.
    Timeout,
    /// The extraction script returned no value.
    Script,
    /// A row of the extracted text is not a name and an integer modifier.
    Parse,
}

/// Skill names and their modifiers, in the order in which the page lists them.
/// Names are unique and compared exactly, case included.
#[derive(Debug)]
pub struct CharacterSheet {
    skills: Vec<(String, i32)>,
}

/// A skill table as name and modifier pairs.
pub type Entries = Seq<(Seq<char>, i32)>;

pub open spec fn has_key(s: Entries, k: Seq<char>) -> bool {
    exists|i: int| 0 <= i < s.len() && s[i].0 == k
}

/// No name occurs twice.
pub open spec fn unique_keys(s: Entries) -> bool {
    forall|i: int, j: int| 0 <= i < j < s.len() ==> s[i].0 != s[j].0
}

/// Sets the modifier of `k` to `v`: in place when `k` is already listed, else
/// as a new last entry.
pub open spec fn insert_entry(s: Entries, k: Seq<char>, v: i32) -> Entries {
    if has_key(s, k) {
        s.update(choose|i: int| 0 <= i < s.len() && s[i].0 == k, (k, v))
    } else {
        s.push((k, v))
    }
}

pub open spec fn entries_of(v: Seq<(String, i32)>) -> Entries {
    v.map_values(|e: (String, i32)| (e.0@, e.1))
}

impl View for CharacterSheet {
    type V = Entries;

    closed spec fn view(&self) -> Entries {
        entries_of(self.skills@)
    }
}

impl CharacterSheet {
    #[verifier::type_invariant]
    spec fn wf(&self) -> bool {
        unique_keys(entries_of(self.skills@))
    }

    /// A sheet that lists no skill.
    pub fn new() -> (r: CharacterSheet)
        ensures
            r@ == Seq::<(Seq<char>, i32)>::empty(),
    {
        let r = CharacterSheet { skills: Vec::new() };
        assert(r@ =~= Seq::<(Seq<char>, i32)>::empty());
        r
    }

    /// How many skills the sheet lists; no name among them occurs twice.
    pub fn len(&self) -> (r: usize)
        ensures
            r == self@.len(),
            unique_keys(self@),
    {
        proof {
            use_type_invariant(self);
        }
        self.skills.len()
    }

    /// The name of the skill at position `i`.
    pub fn name_at(&self, i: usize) -> (r: &String)
        requires
            i < self@.len(),
        ensures
            r@ == self@[i as int].0,
    {
        &self.skills[i].0
    }

    /// The modifier of the skill at position `i`.
    pub fn modifier_at(&self, i: usize) -> (r: i32)
        requires
            i < self@.len(),
        ensures
            r == self@[i as int].1,
    {
        self.skills[i].1
    }

    /// The modifier of skill `name`, if the sheet lists it.
    pub fn get(&self, name: &str) -> (r: Option<i32>)
        ensures
            match r {
                Some(v) => exists|i: int| 0 <= i < self@.len() && self@[i] == (name@, v),
                None => !has_key(self@, name@),
            },
    {
        let n = self.skills.len();
        let mut i: usize = 0;
        while i < n
            invariant
                n == self@.len(),
                i <= n,
                forall|j: int| 0 <= j < i ==> self@[j].0 != name@,
            decreases n - i,
        {
            if crate::text::same_text(self.skills[i].0.as_str(), name) {
                assert(self@[i as int] == (name@, self.skills@[i as int].1));
                return Some(self.skills[i].1);
            }
            i = i + 1;
        }
        None
    }

    /// Sets the modifier of skill `name`; a name already listed keeps its place.
    pub fn insert(&mut self, name: String, modifier: i32)
        ensures
            final(self)@ == insert_entry(old(self)@, name@, modifier),
    {
        proof {
            use_type_invariant(&*self);
        }
        let mut v: Vec<(String, i32)> = Vec::new();
        std::mem::swap(&mut v, &mut self.skills);
        let ghost before = entries_of(v@);
        let n = v.len();
        let mut i: usize = 0;
        while i < n
            invariant
                n == v@.len(),
                i <= n,
                entries_of(v@) == before,
                before == old(self)@,
                unique_keys(before),
                forall|j: int| 0 <= j < i ==> before[j].0 != name@,
            decreases n - i,
        {
            if v[i].0 == name {
                proof {
                    assert(before[i as int].0 == name@);
                    assert(has_key(before, name@));
                    let c = choose|j: int| 0 <= j < before.len() && before[j].0 == name@;
                    assert(c == i) by {
                        if c != i {
                            assert(before[c].0 == before[i as int].0);
                        }
                    }
                }
                v.set(i, (name, modifier));
                assert(entries_of(v@) =~= before.update(i as int, (name@, modifier)));
                self.skills = v;
                return;
            }
            i = i + 1;
        }
        v.push((name, modifier));
        assert(entries_of(v@) =~= before.push((name@, modifier)));
        self.skills = v;
    }
}

/// The entry that one row of extracted text gives: its first two
/// comma-separated fields, the second read as an `i32`.
pub open spec fn row_entry(row: Seq<char>) -> Option<(Seq<char>, i32)> {
    let f = fields(row, Separator::Char(','));
    if f.len() >= 2 && i32_of(f[1]) is Some {
        Some((f[0], i32_of(f[1])->0))
    } else {
        None
    }
}

/// The sheet that a list of rows gives, when every row is well formed.
pub open spec fn sheet_of_rows(rows: Seq<Seq<char>>) -> Option<Entries>
    decreases rows.len(),
{
    if rows.len() == 0 {
        Some(Seq::empty())
    } else {
        match (sheet_of_rows(rows.drop_last()), row_entry(rows.last())) {
            (Some(s), Some(e)) => Some(insert_entry(s, e.0, e.1)),
            _ => None,
        }
    }
}

/// The sheet that the extraction text `blob` describes: rows separated by `;`,
/// each a skill name and a modifier separated by `,`.
pub open spec fn sheet_of_text(blob: Seq<char>) -> Option<Entries> {
    sheet_of_rows(fields(blob, Separator::Char(';')))
}

/// Parses the text that the extraction script returns. One malformed row
/// fails the whole parse.
pub fn parse_skill_list(blob: &str) -> (r: Result<CharacterSheet, ExtractError>)
    ensures
        match r {
            Ok(sheet) => sheet_of_text(blob@) == Some(sheet@),
            Err(e) => sheet_of_text(blob@) is None && e == ExtractError::Parse,
        },
{
    let rows = split_on(blob, ';');
    let ghost rs = string_views(rows@);
    let mut sheet = CharacterSheet::new();
    let mut i: usize = 0;
    while i < rows.len()
        invariant
            rs == string_views(rows@),
            rs == fields(blob@, Separator::Char(';')),
            i <= rows@.len(),
            sheet_of_rows(rs.take(i as int)) == Some(sheet@),
        decreases rows@.len() - i,
    {
        proof {
            assert(rs.take(i as int + 1).drop_last() =~= rs.take(i as int));
            assert(rs.take(i as int + 1).last() == rows@[i as int]@);
        }
        let parts = split_on(&rows[i], ',');
        if parts.len() < 2 {
            proof {
                lemma_failed_row_fails(rs, i as int);
            }
            return Err(ExtractError::Parse);
        }
        proof {
            assert(string_views(parts@)[1] == parts@[1]@);
            assert(string_views(parts@)[0] == parts@[0]@);
        }
        match parse_i32(&parts[1]) {
            Some(v) => {
                sheet.insert(parts[0].clone(), v);
            },
            None => {
                proof {
                    lemma_failed_row_fails(rs, i as int);
                }
                return Err(ExtractError::Parse);
            },
        }
        i = i + 1;
    }
    proof {
        assert(rs.take(i as int) =~= rs);
    }
    Ok(sheet)
}

/// Once a row is malformed, no longer list of rows parses.
proof fn lemma_failed_row_fails(rs: Seq<Seq<char>>, i: int)
    requires
        0 <= i < rs.len(),
        row_entry(rs[i]) is None,
    ensures
        sheet_of_rows(rs) is None,
    decreases rs.len(),
{
    if i < rs.len() - 1 {
        lemma_failed_row_fails(rs.drop_last(), i);
    }
}

} // verus!
