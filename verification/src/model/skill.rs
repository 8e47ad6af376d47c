use vstd::prelude::*;

use crate::util::{IdType, TimeType};

verus! {

/// The mutable field group of a Skill.
#[derive(Debug)]
pub struct SkillFields {
    pub name: String,
    pub progress: u8,
    pub level: u8,
}

impl Clone for SkillFields {
    fn clone(&self) -> (res: Self)
        ensures
            res == *self,
    {
        SkillFields { name: self.name.clone(), progress: self.progress, level: self.level }
    }
}

/// A row of the skill table; owned by exactly one Character.
#[derive(Debug)]
pub struct Skill {
    pub id: IdType,
    pub fields: SkillFields,
    pub character_id: IdType,
    pub created_at: TimeType,
    pub updated_at: TimeType,
}

impl Clone for Skill {
    fn clone(&self) -> (res: Self)
        ensures
            res == *self,
    {
        Skill {
            id: self.id,
            fields: self.fields.clone(),
            character_id: self.character_id,
            created_at: self.created_at,
            updated_at: self.updated_at,
        }
    }
}

/// The response shape of a skill listing.
#[derive(Debug)]
pub struct SkillList(pub Vec<Skill>);

/// Whether some row of the table carries the given id.
pub open spec fn has_skill(s: Seq<Skill>, id: IdType) -> bool {
    exists|i: int| 0 <= i < s.len() && s[i].id == id
}

/// The index of the row carrying the given id; meaningful only under
/// `has_skill` and unique ids.
pub open spec fn skill_index(s: Seq<Skill>, id: IdType) -> int {
    choose|i: int| 0 <= i < s.len() && s[i].id == id
}

/// The row carrying the given id; meaningful only under `has_skill` and
/// unique ids.
pub open spec fn skill_of(s: Seq<Skill>, id: IdType) -> Skill {
    s[skill_index(s, id)]
}

/// No two rows of the table share an id.
pub open spec fn unique_skill_ids(s: Seq<Skill>) -> bool {
    forall|i: int, j: int|
        0 <= i < s.len() && 0 <= j < s.len() && i != j ==> s[i].id != s[j].id
}

/// Whether the table holds a row with the given id owned by the given
/// character.
pub open spec fn skill_owned_by(s: Seq<Skill>, id: IdType, character_id: IdType) -> bool {
    exists|i: int| 0 <= i < s.len() && s[i].id == id && s[i].character_id == character_id
}

/// Under unique ids, the row found at any index is the row `skill_of`
/// denotes for that id.
pub proof fn lemma_skill_of(s: Seq<Skill>, i: int)
    requires
        unique_skill_ids(s),
        0 <= i < s.len(),
    ensures
        has_skill(s, s[i].id),
        skill_index(s, s[i].id) == i,
        skill_of(s, s[i].id) == s[i],
{
    assert(has_skill(s, s[i].id));
    let k = choose|k: int| 0 <= k < s.len() && s[k].id == s[i].id;
    assert(k == i);
}

} // verus!
