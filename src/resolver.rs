//! Matching a typed skill name against a sheet, and the d20 roll that
//! completes a skill check.
use vstd::prelude::*;

use rand::Rng;

use crate::character_sheet::{has_key, unique_keys, CharacterSheet, Entries};
use crate::text::{decimal, push_decimal};
use vstd::string::StringExecFns;

verus! {

/// The Damerau-Levenshtein distance between two character sequences, as
/// strsim computes it.
pub uninterp spec fn edit_distance(a: Seq<char>, b: Seq<char>) -> nat;

/// Relies on strsim::damerau_levenshtein: the edit distance over characters
/// where insertions, deletions, substitutions and transpositions of adjacent
/// characters each cost one. It is zero exactly when the two are equal, and
/// against an empty string it is the other string's length.
#[verifier::external_body]
fn distance(a: &str, b: &str) -> (r: usize)
    ensures
        r as nat == edit_distance(a@, b@),
        (r == 0) == (a@ == b@),
        a@.len() == 0 ==> r == b@.len(),
        b@.len() == 0 ==> r == a@.len(),
{
    strsim::damerau_levenshtein(a, b)
}

/// Relies on rand's thread_rng and Rng::gen_range: a value drawn from
/// `low..high`, which must not be empty.
#[verifier::external_body]
fn random_below(low: i32, high: i32) -> (r: i32)
    requires
        low < high,
    ensures
        low <= r < high,
{
    rand::thread_rng().gen_range(low..high)
}

/// `i` is the first position of a smallest value in `d`.
pub open spec fn is_first_min(d: Seq<nat>, i: int) -> bool {
    &&& 0 <= i < d.len()
    &&& forall|j: int| 0 <= j < d.len() ==> d[i] <= #[trigger] d[j]
    &&& forall|j: int| 0 <= j < i ==> d[i] < #[trigger] d[j]
}

/// The distance from each skill name of `s` to the typed name `t`.
pub open spec fn distances(s: Entries, t: Seq<char>) -> Seq<nat> {
    s.map_values(|e: (Seq<char>, i32)| edit_distance(e.0, t))
}

/// The entry that a typed name resolves to: the first skill at the smallest
/// distance, in the sheet's order; none for an empty sheet.
pub open spec fn resolved(s: Entries, t: Seq<char>) -> Option<(Seq<char>, i32)> {
    if s.len() == 0 {
        None
    } else {
        Some(s[choose|i: int| is_first_min(distances(s, t), i)])
    }
}

/// At most one position is the first of a smallest value.
pub proof fn lemma_first_min_unique(d: Seq<nat>, i: int, j: int)
    requires
        is_first_min(d, i),
        is_first_min(d, j),
    ensures
        i == j,
{
    if i < j {
        assert(d[j] < d[i]);
        assert(d[j] <= d[i]);
    } else if j < i {
        assert(d[i] < d[j]);
    }
}

pub open spec fn nats(v: Seq<usize>) -> Seq<nat> {
    v.map_values(|x: usize| x as nat)
}

/// The first position of a smallest value of `d`; none when `d` is empty.
pub fn closest_index(d: &Vec<usize>) -> (r: Option<usize>)
    ensures
        match r {
            Some(i) => is_first_min(nats(d@), i as int),
            None => d@.len() == 0,
        },
{
    if d.len() == 0 {
        return None;
    }
    let mut best: usize = 0;
    let mut i: usize = 1;
    while i < d.len()
        invariant
            1 <= i <= d@.len(),
            best < i,
            forall|j: int| 0 <= j < i ==> d@[best as int] <= #[trigger] d@[j],
            forall|j: int| 0 <= j < best ==> d@[best as int] < #[trigger] d@[j],
        decreases d@.len() - i,
    {
        if d[i] < d[best] {
            best = i;
        }
        i = i + 1;
    }
    Some(best)
}

/// Why a skill name could not be resolved.
#[derive(Clone, Copy, Debug, PartialEq, Eq, Structural)]
pub enum ResolveError {
    /// The sheet lists no skill.
    EmptySkillList,
}

/// Finds the skill of `sheet` closest to `typed`: the first, in the sheet's
/// order, at the smallest edit distance. A name listed on the sheet resolves
/// to itself.
pub fn resolve(sheet: &CharacterSheet, typed: &str) -> (r: Result<(String, i32), ResolveError>)
    ensures
        match r {
            Ok(e) => resolved(sheet@, typed@) == Some((e.0@, e.1)) && has_key(sheet@, e.0@),
            Err(e) => sheet@.len() == 0 && e == ResolveError::EmptySkillList,
        },
        has_key(sheet@, typed@) ==> (r matches Ok(e) && e.0@ == typed@),
{
    let n = sheet.len();
    let mut d: Vec<usize> = Vec::new();
    let mut i: usize = 0;
    while i < n
        invariant
            n == sheet@.len(),
            i <= n,
            d@.len() == i,
            unique_keys(sheet@),
            forall|j: int| 0 <= j < i ==> #[trigger] d@[j] as nat == edit_distance(sheet@[j].0, typed@),
            forall|j: int| 0 <= j < i ==> (#[trigger] d@[j] == 0) == (sheet@[j].0 == typed@),
        decreases n - i,
    {
        let k = distance(sheet.name_at(i).as_str(), typed);
        d.push(k);
        i = i + 1;
    }
    proof {
        assert(nats(d@) =~= distances(sheet@, typed@));
    }
    match closest_index(&d) {
        None => Err(ResolveError::EmptySkillList),
        Some(b) => {
            let ghost ds = distances(sheet@, typed@);
            proof {
                let c = choose|i: int| is_first_min(ds, i);
                lemma_first_min_unique(ds, b as int, c);
                if has_key(sheet@, typed@) {
                    let t = choose|j: int| 0 <= j < sheet@.len() && sheet@[j].0 == typed@;
                    assert(d@[t] == 0);
                    assert(ds[b as int] <= ds[t]);
                    assert(d@[b as int] == 0);
                }
            }
            Ok((sheet.name_at(b).clone(), sheet.modifier_at(b)))
        },
    }
}

/// Draws a d20: a value from 1 to 20, each equally likely.
pub fn roll_d20() -> (r: i32)
    ensures
        1 <= r <= 20,
{
    random_below(1, 21)
}

/// The outcome of a skill check: the skill that was matched, its modifier,
/// and the die that was rolled.
#[derive(Debug)]
pub struct SkillCheckResponse {
    pub skill: String,
    pub modifier: i32,
    pub d20: i32,
}

/// The reply text for a check of `skill` with modifier `m` and die `d`:
/// `"<skill> check: 🎲<d> + <m> = <d + m>"`.
pub open spec fn check_text(skill: Seq<char>, m: int, d: int) -> Seq<char> {
    skill + " check: 🎲"@ + decimal(d) + " + "@ + decimal(m) + " = "@ + decimal(d + m)
}

impl SkillCheckResponse {
    /// The reply text for this check.
    pub fn to_reply(&self) -> (r: String)
        ensures
            r@ == check_text(self.skill@, self.modifier as int, self.d20 as int),
    {
        let mut out = self.skill.clone();
        out.append(" check: 🎲");
        push_decimal(&mut out, self.d20 as i64);
        out.append(" + ");
        push_decimal(&mut out, self.modifier as i64);
        out.append(" = ");
        push_decimal(&mut out, self.d20 as i64 + self.modifier as i64);
        out
    }
}

/// Resolves `typed` against `sheet`, with `d20` as the die.
pub fn check_with_roll(sheet: &CharacterSheet, typed: &str, d20: i32) -> (r: Result<
    SkillCheckResponse,
    ResolveError,
>)
    ensures
        match r {
            Ok(c) => resolved(sheet@, typed@) == Some((c.skill@, c.modifier)) && c.d20 == d20,
            Err(e) => sheet@.len() == 0 && e == ResolveError::EmptySkillList,
        },
{
    match resolve(sheet, typed) {
        Ok((skill, modifier)) => Ok(SkillCheckResponse { skill, modifier, d20 }),
        Err(e) => Err(e),
    }
}

/// Resolves `typed` against `sheet` and rolls the die.
pub fn skill_check(sheet: &CharacterSheet, typed: &str) -> (r: Result<SkillCheckResponse, ResolveError>)
    ensures
        match r {
            Ok(c) => resolved(sheet@, typed@) == Some((c.skill@, c.modifier)) && 1 <= c.d20 <= 20,
            Err(e) => sheet@.len() == 0 && e == ResolveError::EmptySkillList,
        },
{
    if sheet.len() == 0 {
        return Err(ResolveError::EmptySkillList);
    }
    check_with_roll(sheet, typed, roll_d20())
}

} // verus!
