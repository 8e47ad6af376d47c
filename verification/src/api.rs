//! The compute side of the request handlers: parsing an id out of a path
//! segment, and narrowing a dispatched result to the shape a route promises.
//! A result of the wrong shape is an internal error, never a success.

use vstd::prelude::*;
use vstd::string::StrSliceExecFns;

use crate::db::QueryResult;
use crate::model::character::{Character, CharacterList};
use crate::model::skill::{Skill, SkillList};
use crate::model::task::{Task, TaskList};
use crate::util::IdType;
use crate::AppError;

verus! {

/// A decimal digit.
pub open spec fn is_dec_digit(c: char) -> bool {
    48 <= c as u32 <= 57
}

/// Every character of the sequence is a decimal digit.
pub open spec fn dec_digits(s: Seq<char>) -> bool {
    forall|i: int| 0 <= i < s.len() ==> is_dec_digit(#[trigger] s[i])
}

/// The value of a sequence of decimal digits, most significant first.
pub open spec fn dec_val(s: Seq<char>) -> int
    decreases s.len(),
{
    if s.len() == 0 {
        0
    } else {
        dec_val(s.drop_last()) * 10 + (s.last() as u32 - 48)
    }
}

/// The digit part of an id segment: an optional leading plus sign is
/// accepted, as the standard integer parser accepts it.
pub open spec fn id_digits(s: Seq<char>) -> Seq<char> {
    if s.len() > 0 && s[0] == '+' {
        s.drop_first()
    } else {
        s
    }
}

/// An id segment parses exactly when, after the optional sign, it is one or
/// more decimal digits whose value fits the id type.
pub open spec fn valid_id_string(s: Seq<char>) -> bool {
    &&& id_digits(s).len() > 0
    &&& dec_digits(id_digits(s))
    &&& dec_val(id_digits(s)) <= u64::MAX
}

/// The value of a digit string is never negative.
proof fn lemma_dec_val_nonneg(s: Seq<char>)
    requires
        dec_digits(s),
    ensures
        dec_val(s) >= 0,
    decreases s.len(),
{
    if s.len() > 0 {
        assert(dec_digits(s.drop_last()));
        lemma_dec_val_nonneg(s.drop_last());
    }
}

/// A prefix of a digit string never exceeds the whole string's value.
proof fn lemma_dec_val_prefix(s: Seq<char>, j: int)
    requires
        dec_digits(s),
        0 <= j <= s.len(),
    ensures
        dec_val(s.subrange(0, j)) <= dec_val(s),
    decreases s.len() - j,
{
    if j < s.len() {
        assert(s.subrange(0, j + 1).drop_last() =~= s.subrange(0, j));
        assert(s.subrange(0, j + 1).last() == s[j]);
        assert(dec_digits(s.subrange(0, j)));
        lemma_dec_val_nonneg(s.subrange(0, j));
        assert(dec_val(s.subrange(0, j + 1)) == dec_val(s.subrange(0, j)) * 10 + (s[j] as u32
            - 48));
        lemma_dec_val_prefix(s, j + 1);
    } else {
        assert(s.subrange(0, j) =~= s);
    }
}

/// Parses a path segment as an id: an optional plus sign and decimal digits,
/// rejected with a validation error on the id field otherwise (or when the
/// value does not fit the id type).
pub fn parse_id(path: &str) -> (r: Result<IdType, AppError>)
    ensures
        match r {
            Ok(v) => valid_id_string(path@) && v == dec_val(id_digits(path@)),
            Err(e) => {
                &&& !valid_id_string(path@)
                &&& (e matches AppError::ValidationError { field } && field@ == "id"@)
            },
        },
{
    let len = path.unicode_len();
    let start: usize = if len > 0 && path.get_char(0) == '+' {
        1
    } else {
        0
    };
    let ghost dseq = id_digits(path@);
    proof {
        assert(dseq =~= path@.subrange(start as int, len as int));
    }
    if start >= len {
        return Err(AppError::ValidationError { field: "id".to_owned() });
    }
    let mut value: u64 = 0;
    let mut i: usize = start;
    while i < len
        invariant
            start <= i <= len,
            len == path@.len(),
            start == 0 || (start == 1 && path@.len() > 0 && path@[0] == '+'),
            dseq == id_digits(path@),
            dseq =~= path@.subrange(start as int, len as int),
            dec_digits(path@.subrange(start as int, i as int)),
            value == dec_val(path@.subrange(start as int, i as int)),
        decreases len - i,
    {
        let ghost prefix = path@.subrange(start as int, i as int);
        let c = path.get_char(i);
        let cv = c as u32;
        if cv < 48 || cv > 57 {
            proof {
                assert(dseq[i - start as int] == path@[i as int]);
                assert(!is_dec_digit(dseq[i - start as int]));
            }
            return Err(AppError::ValidationError { field: "id".to_owned() });
        }
        let digit = (cv - 48) as u64;
        proof {
            assert(path@.subrange(start as int, i as int + 1).drop_last() =~= prefix);
            assert(path@.subrange(start as int, i as int + 1).last() == path@[i as int]);
        }
        if value > u64::MAX / 10 || (value == u64::MAX / 10 && digit > u64::MAX % 10) {
            proof {
                let grown = path@.subrange(start as int, i as int + 1);
                assert(dec_val(grown) == value * 10 + digit);
                assert(dec_val(grown) > u64::MAX);
                if dec_digits(dseq) {
                    assert(grown =~= dseq.subrange(0, i - start as int + 1));
                    lemma_dec_val_prefix(dseq, i - start as int + 1);
                }
            }
            return Err(AppError::ValidationError { field: "id".to_owned() });
        }
        value = value * 10 + digit;
        i += 1;
    }
    proof {
        assert(path@.subrange(start as int, len as int) =~= dseq);
        assert(dseq.len() > 0);
    }
    Ok(value)
}

/// Narrows a dispatched result to a single character, as the character
/// routes promise.
pub fn character_result(r: Result<QueryResult, AppError>) -> (out: Result<Character, AppError>)
    ensures
        match r {
            Ok(QueryResult::Character(c)) => out == Ok::<Character, AppError>(c),
            Ok(_) => out == Err::<Character, AppError>(AppError::InternalError),
            Err(e) => out == Err::<Character, AppError>(e),
        },
{
    match r {
        Ok(QueryResult::Character(c)) => Ok(c),
        Ok(_) => Err(AppError::InternalError),
        Err(e) => Err(e),
    }
}

/// Narrows a dispatched result to a character listing.
pub fn character_list_result(r: Result<QueryResult, AppError>) -> (out: Result<
    CharacterList,
    AppError,
>)
    ensures
        match r {
            Ok(QueryResult::CharacterList(v)) => (match out {
                Ok(list) => list.0 == v,
                Err(_) => false,
            }),
            Ok(_) => out matches Err(e) && e == AppError::InternalError,
            Err(e) => out matches Err(e2) && e2 == e,
        },
{
    match r {
        Ok(QueryResult::CharacterList(v)) => Ok(CharacterList(v)),
        Ok(_) => Err(AppError::InternalError),
        Err(e) => Err(e),
    }
}

/// Narrows a dispatched result to a single skill.
pub fn skill_result(r: Result<QueryResult, AppError>) -> (out: Result<Skill, AppError>)
    ensures
        match r {
            Ok(QueryResult::Skill(s)) => out == Ok::<Skill, AppError>(s),
            Ok(_) => out == Err::<Skill, AppError>(AppError::InternalError),
            Err(e) => out == Err::<Skill, AppError>(e),
        },
{
    match r {
        Ok(QueryResult::Skill(s)) => Ok(s),
        Ok(_) => Err(AppError::InternalError),
        Err(e) => Err(e),
    }
}

/// Narrows a dispatched result to a skill listing.
pub fn skill_list_result(r: Result<QueryResult, AppError>) -> (out: Result<SkillList, AppError>)
    ensures
        match r {
            Ok(QueryResult::SkillList(v)) => (match out {
                Ok(list) => list.0 == v,
                Err(_) => false,
            }),
            Ok(_) => out matches Err(e) && e == AppError::InternalError,
            Err(e) => out matches Err(e2) && e2 == e,
        },
{
    match r {
        Ok(QueryResult::SkillList(v)) => Ok(SkillList(v)),
        Ok(_) => Err(AppError::InternalError),
        Err(e) => Err(e),
    }
}

/// Narrows a dispatched result to a single task.
pub fn task_result(r: Result<QueryResult, AppError>) -> (out: Result<Task, AppError>)
    ensures
        match r {
            Ok(QueryResult::Task(t)) => out == Ok::<Task, AppError>(t),
            Ok(_) => out == Err::<Task, AppError>(AppError::InternalError),
            Err(e) => out == Err::<Task, AppError>(e),
        },
{
    match r {
        Ok(QueryResult::Task(t)) => Ok(t),
        Ok(_) => Err(AppError::InternalError),
        Err(e) => Err(e),
    }
}

/// Narrows a dispatched result to a task listing.
pub fn task_list_result(r: Result<QueryResult, AppError>) -> (out: Result<TaskList, AppError>)
    ensures
        match r {
            Ok(QueryResult::TaskList(v)) => (match out {
                Ok(list) => list.0 == v,
                Err(_) => false,
            }),
            Ok(_) => out matches Err(e) && e == AppError::InternalError,
            Err(e) => out matches Err(e2) && e2 == e,
        },
{
    match r {
        Ok(QueryResult::TaskList(v)) => Ok(TaskList(v)),
        Ok(_) => Err(AppError::InternalError),
        Err(e) => Err(e),
    }
}

/// Narrows a dispatched result to a bare confirmation, as the delete and
/// reset routes promise.
pub fn success_result(r: Result<QueryResult, AppError>) -> (out: Result<(), AppError>)
    ensures
        match r {
            Ok(QueryResult::Success) => out == Ok::<(), AppError>(()),
            Ok(_) => out == Err::<(), AppError>(AppError::InternalError),
            Err(e) => out == Err::<(), AppError>(e),
        },
{
    match r {
        Ok(QueryResult::Success) => Ok(()),
        Ok(_) => Err(AppError::InternalError),
        Err(e) => Err(e),
    }
}

} // verus!
