//! Records get their two reserved members in front.
use crate::assigner::StaticSingleAssigner;
use crate::error::SsaError;
use crate::ordered_map::{
    inserted, lemma_value_after_insert, lemma_value_after_remove, member_entries, member_map_insert,
    member_map_into_members, member_map_new, member_map_shift_remove, removed, value_at, values,
};
use crate::symbol::{gates, owner, Symbol};
use crate::theorems::{distinct_names, member_named, theorem_record_members, unreserved};
use crate::tree::{Member, Struct, StructView};
use vstd::prelude::*;

verus! {

/// Whether one of the members has the name.
pub open spec fn declares(members: Seq<Member>, name: Symbol) -> bool {
    exists|i: int| 0 <= i < members.len() && (#[trigger] members[i]).identifier.name == name
}

/// The members entered one by one into a map keyed by name: where a name
/// comes again, the entry keeps its place and holds the later member.
pub open spec fn collected(members: Seq<Member>) -> Seq<(Symbol, Member)>
    decreases members.len(),
{
    if members.len() == 0 {
        Seq::empty()
    } else {
        inserted(collected(members.drop_last()), members.last().identifier.name, members.last())
    }
}

/// The members of a record in the order that a record has them: `owner`,
/// `gates`, then the others as they were declared.
pub open spec fn reordered(members: Seq<Member>) -> Seq<Member> {
    let all = collected(members);
    let others = removed(removed(all, owner()), gates());
    seq![value_at(all, owner()).unwrap(), value_at(all, gates()).unwrap()] + values(others)
}

/// The declaration as the pass leaves it. A struct is left as it is. A
/// record has its members reordered, and is refused where it lacks `owner`
/// or, having that, lacks `gates`.
pub open spec fn normalized(declaration: StructView) -> Result<StructView, SsaError> {
    if !declaration.is_record {
        Ok(declaration)
    } else if !declares(declaration.members, owner()) {
        Err(SsaError::MissingReservedField { record: declaration.identifier.name, field: owner() })
    } else if !declares(declaration.members, gates()) {
        Err(SsaError::MissingReservedField { record: declaration.identifier.name, field: gates() })
    } else {
        Ok(StructView { members: reordered(declaration.members), ..declaration })
    }
}

/// The map of the members holds a name exactly where a member has it.
pub(crate) proof fn lemma_collected_keys(members: Seq<Member>, name: Symbol)
    ensures
        value_at(collected(members), name) is Some <==> declares(members, name),
    decreases members.len(),
{
    if members.len() > 0 {
        let front = members.drop_last();
        let last = members.last();
        lemma_collected_keys(front, name);
        lemma_value_after_insert(collected(front), last.identifier.name, last, name);
        if declares(members, name) {
            let i = choose|i: int| 0 <= i < members.len() && (#[trigger] members[i]).identifier.name == name;
            if i < front.len() {
                assert(front[i].identifier.name == name);
            }
        }
        if declares(front, name) {
            let i = choose|i: int| 0 <= i < front.len() && (#[trigger] front[i]).identifier.name == name;
            assert(members[i].identifier.name == name);
        }
        if last.identifier.name == name {
            assert(members[members.len() - 1].identifier.name == name);
        }
    }
}

impl StaticSingleAssigner {
    /// Rebuilds a struct or record declaration. A struct comes back as it
    /// was. A record comes back with `owner` first and `gates` second, and the
    /// other members behind them in the order they had.
    pub fn consume_struct(&self, declaration: Struct) -> (rebuilt: Result<Struct, SsaError>)
        ensures
            match rebuilt {
                Ok(out) => normalized(declaration@) == Ok::<StructView, SsaError>(out@),
                Err(error) => normalized(declaration@) == Err::<StructView, SsaError>(error),
            },
            !declaration.is_record ==> rebuilt is Ok && rebuilt.unwrap()@ == declaration@,
            declaration.is_record && distinct_names(declaration.members@) && declares(declaration.members@, owner())
                && declares(declaration.members@, gates()) ==> rebuilt is Ok && rebuilt.unwrap()@.members == seq![
                member_named(declaration.members@, owner()),
                member_named(declaration.members@, gates()),
            ] + unreserved(declaration.members@),
    {
        proof {
            if declaration.is_record && distinct_names(declaration.members@) && declares(
                declaration.members@,
                owner(),
            ) && declares(declaration.members@, gates()) {
                theorem_record_members(declaration@);
            }
        }
        if !declaration.is_record {
            return Ok(declaration);
        }
        let Struct { identifier, members, is_record, span } = declaration;
        let ghost before = members@;
        let mut member_map = member_map_new();
        for member in it: members
            invariant
                it.seq() == before,
                member_entries(member_map) == collected(before.take(it.index() as int)),
        {
            proof {
                let k = it.index() as int;
                assert(before.take(k + 1).drop_last() =~= before.take(k));
            }
            member_map_insert(&mut member_map, member.identifier.name, member);
        }
        proof {
            assert(before.take(before.len() as int) =~= before);
            lemma_collected_keys(before, owner());
            lemma_collected_keys(before, gates());
            lemma_value_after_remove(collected(before), owner(), gates());
        }
        let first = match member_map_shift_remove(&mut member_map, Symbol::reserved_owner()) {
            None => {
                return Err(
                    SsaError::MissingReservedField { record: identifier.name, field: Symbol::reserved_owner() },
                );
            },
            Some(member) => member,
        };
        let second = match member_map_shift_remove(&mut member_map, Symbol::reserved_gates()) {
            None => {
                return Err(
                    SsaError::MissingReservedField { record: identifier.name, field: Symbol::reserved_gates() },
                );
            },
            Some(member) => member,
        };
        let mut others = member_map_into_members(member_map);
        let mut reordered_members: Vec<Member> = Vec::new();
        reordered_members.push(first);
        reordered_members.push(second);
        reordered_members.append(&mut others);
        assert(reordered_members@ =~= reordered(before));
        Ok(Struct { identifier, members: reordered_members, is_record, span })
    }
}

} // verus!
