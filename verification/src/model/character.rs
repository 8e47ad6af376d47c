use vstd::prelude::*;

use crate::util::{IdType, TimeType};

verus! {

/// The mutable field group of a Character; carried by creation and update
/// requests, never the id or the timestamps.
#[derive(Debug)]
pub struct CharacterFields {
    pub name: String,
    pub avatar: String,
    pub notes: String,
    pub quote: String,
}

impl Clone for CharacterFields {
    fn clone(&self) -> (res: Self)
        ensures
            res == *self,
    {
        CharacterFields {
            name: self.name.clone(),
            avatar: self.avatar.clone(),
            notes: self.notes.clone(),
            quote: self.quote.clone(),
        }
    }
}

/// A row of the character table: the root of the hierarchy.
#[derive(Debug)]
pub struct Character {
    pub id: IdType,
    pub fields: CharacterFields,
    pub created_at: TimeType,
    pub updated_at: TimeType,
}

impl Clone for Character {
    fn clone(&self) -> (res: Self)
        ensures
            res == *self,
    {
        Character {
            id: self.id,
            fields: self.fields.clone(),
            created_at: self.created_at,
            updated_at: self.updated_at,
        }
    }
}

/// The response shape of a character listing.
#[derive(Debug)]
pub struct CharacterList(pub Vec<Character>);

/// Whether some row of the table carries the given id.
pub open spec fn has_character(s: Seq<Character>, id: IdType) -> bool {
    exists|i: int| 0 <= i < s.len() && s[i].id == id
}

/// The index of the row carrying the given id; meaningful only under
/// `has_character` and unique ids.
pub open spec fn char_index(s: Seq<Character>, id: IdType) -> int {
    choose|i: int| 0 <= i < s.len() && s[i].id == id
}

/// The row carrying the given id; meaningful only under `has_character`
/// and unique ids.
pub open spec fn character_of(s: Seq<Character>, id: IdType) -> Character {
    s[char_index(s, id)]
}

/// No two rows of the table share an id.
pub open spec fn unique_character_ids(s: Seq<Character>) -> bool {
    forall|i: int, j: int|
        0 <= i < s.len() && 0 <= j < s.len() && i != j ==> s[i].id != s[j].id
}

/// Under unique ids, the row found at any index is the row `character_of`
/// denotes for that id.
pub proof fn lemma_character_of(s: Seq<Character>, i: int)
    requires
        unique_character_ids(s),
        0 <= i < s.len(),
    ensures
        has_character(s, s[i].id),
        char_index(s, s[i].id) == i,
        character_of(s, s[i].id) == s[i],
{
    assert(has_character(s, s[i].id));
    let k = choose|k: int| 0 <= k < s.len() && s[k].id == s[i].id;
    assert(k == i);
}

} // verus!
