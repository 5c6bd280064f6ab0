//! Which functions of a workspace are the executor and the chips.

use vstd::prelude::*;
use crate::ast::{FuncV, ItemV, MemberV};
use crate::checker::vm::{
    chip_of, chips_among, chips_in, executor_among, executor_in, first_computation,
    first_constraint, names_executor, ChipSpecV,
};
use crate::text::{has_text, lower};
use crate::utils::module_resolver::ModuleV;

verus! {

/// A position in a workspace: a module and an item in it.
pub struct Position {
    pub module: int,
    pub item: int,
}

/// There is such an item.
pub open spec fn is_position(mods: Seq<ModuleV>, at: Position) -> bool {
    0 <= at.module < mods.len() && 0 <= at.item < mods[at.module].file.items.len()
}

/// The first position is before the second.
pub open spec fn before(a: Position, b: Position) -> bool {
    a.module < b.module || (a.module == b.module && a.item < b.item)
}

/// The item at a position.
pub open spec fn item_at(mods: Seq<ModuleV>, at: Position) -> ItemV {
    mods[at.module].file.items[at.item]
}

/// The function is that of the first computation among the members.
pub open spec fn is_first_computation(members: Seq<MemberV>, f: FuncV) -> bool {
    exists|i: int|
        0 <= i < members.len() && #[trigger] members[i] == MemberV::Computation(f) && forall|j: int|
            0 <= j < i ==> !((#[trigger] members[j]) is Computation)
}

/// The function is that of the first constraint among the members.
pub open spec fn is_first_constraint(members: Seq<MemberV>, f: FuncV) -> bool {
    exists|i: int|
        0 <= i < members.len() && #[trigger] members[i] == MemberV::Constraint(f) && forall|j: int|
            0 <= j < i ==> !((#[trigger] members[j]) is Constraint)
}

/// There is a computation among the members.
pub open spec fn computes(members: Seq<MemberV>) -> bool {
    exists|i: int| 0 <= i < members.len() && (#[trigger] members[i]) is Computation
}

/// There is a constraint among the members.
pub open spec fn constrains(members: Seq<MemberV>) -> bool {
    exists|i: int| 0 <= i < members.len() && (#[trigger] members[i]) is Constraint
}

/// The item is a component of another name than the executor, with a computation and a constraint.
pub open spec fn has_chip(item: ItemV, executor_name: Seq<char>) -> bool {
    match item {
        ItemV::Component { name, members, .. } => name != executor_name && computes(members)
            && constrains(members),
        _ => false,
    }
}

/// The chip has the name of the component, its first computation and its first constraint.
pub open spec fn is_chip_of(c: ChipSpecV, item: ItemV) -> bool {
    match item {
        ItemV::Component { name, members, .. } => c.name == name && is_first_computation(
            members,
            c.populate,
        ) && is_first_constraint(members, c.eval),
        _ => false,
    }
}

proof fn lemma_computation(members: Seq<MemberV>, i: int)
    requires
        0 <= i,
        forall|j: int| 0 <= j < i && j < members.len() ==> !((#[trigger] members[j]) is Computation),
    ensures
        match first_computation(members, i) {
            Some(f) => is_first_computation(members, f) && computes(members),
            None => !computes(members),
        },
    decreases members.len() - i,
{
    if i < members.len() {
        match members[i] {
            MemberV::Computation(f) => {
                assert(members[i] == MemberV::Computation(f));
            },
            _ => lemma_computation(members, i + 1),
        }
    }
}

proof fn lemma_constraint(members: Seq<MemberV>, i: int)
    requires
        0 <= i,
        forall|j: int| 0 <= j < i && j < members.len() ==> !((#[trigger] members[j]) is Constraint),
    ensures
        match first_constraint(members, i) {
            Some(f) => is_first_constraint(members, f) && constrains(members),
            None => !constrains(members),
        },
    decreases members.len() - i,
{
    if i < members.len() {
        match members[i] {
            MemberV::Constraint(f) => {
                assert(members[i] == MemberV::Constraint(f));
            },
            _ => lemma_constraint(members, i + 1),
        }
    }
}

proof fn lemma_chip(item: ItemV, executor_name: Seq<char>)
    ensures
        match chip_of(item, executor_name) {
            Some(c) => has_chip(item, executor_name) && is_chip_of(c, item),
            None => !has_chip(item, executor_name),
        },
{
    match item {
        ItemV::Component { members, .. } => {
            lemma_computation(members, 0);
            lemma_constraint(members, 0);
        },
        _ => {},
    }
}

/// The positions of chips, in order; one for each chip, and none left out before `end`.
pub open spec fn listed(
    mods: Seq<ModuleV>,
    executor_name: Seq<char>,
    chips: Seq<ChipSpecV>,
    at: Seq<Position>,
    end: Position,
) -> bool {
    &&& at.len() == chips.len()
    &&& forall|j: int|
        0 <= j < at.len() ==> is_position(mods, #[trigger] at[j]) && before(at[j], end) && has_chip(
            item_at(mods, at[j]),
            executor_name,
        ) && is_chip_of(chips[j], item_at(mods, at[j]))
    &&& forall|j: int, k: int| 0 <= j < k < at.len() ==> before(#[trigger] at[j], #[trigger] at[k])
    &&& forall|p: Position|
        is_position(mods, p) && before(p, end) && has_chip(
            #[trigger] item_at(mods, p),
            executor_name,
        ) ==> at.contains(p)
}

proof fn lemma_in_items(
    mods: Seq<ModuleV>,
    m: int,
    i: int,
    executor_name: Seq<char>,
    acc: Seq<ChipSpecV>,
    at: Seq<Position>,
) -> (all: Seq<Position>)
    requires
        0 <= m < mods.len(),
        0 <= i <= mods[m].file.items.len(),
        listed(mods, executor_name, acc, at, (Position { module: m, item: i })),
    ensures
        listed(
            mods,
            executor_name,
            chips_in(mods[m].file.items, i, executor_name, acc),
            all,
            (Position { module: m + 1, item: 0 }),
        ),
    decreases mods[m].file.items.len() - i,
{
    let items = mods[m].file.items;
    let here = Position { module: m, item: i };
    if i < items.len() {
        let next = Position { module: m, item: i + 1 };
        lemma_chip(items[i], executor_name);
        assert(item_at(mods, here) == items[i]);
        let (acc2, at2) = match chip_of(items[i], executor_name) {
            Some(c) => (acc.push(c), at.push(here)),
            None => (acc, at),
        };
        assert forall|p: Position|
            is_position(mods, p) && before(p, next) && has_chip(
                #[trigger] item_at(mods, p),
                executor_name,
            ) implies at2.contains(p) by {
            if before(p, here) {
                assert(at.contains(p));
                let j = choose|j: int| 0 <= j < at.len() && at[j] == p;
                assert(at2[j] == p);
            } else {
                assert(p == here);
                assert(at2[at.len() as int] == p);
            }
        }
        assert forall|j: int| 0 <= j < at2.len() implies is_position(mods, #[trigger] at2[j])
            && before(at2[j], next) && has_chip(item_at(mods, at2[j]), executor_name)
            && is_chip_of(acc2[j], item_at(mods, at2[j])) by {
            if j < at.len() {
                assert(at2[j] == at[j]);
            }
        }
        assert forall|j: int, k: int| 0 <= j < k < at2.len() implies before(
            #[trigger] at2[j],
            #[trigger] at2[k],
        ) by {
            assert(at2[j] == at[j]);
            if k < at.len() {
                assert(at2[k] == at[k]);
            }
        }
        lemma_in_items(mods, m, i + 1, executor_name, acc2, at2)
    } else {
        let end = Position { module: m + 1, item: 0 };
        assert forall|p: Position|
            is_position(mods, p) && before(p, end) && has_chip(
                #[trigger] item_at(mods, p),
                executor_name,
            ) implies at.contains(p) by {
            assert(before(p, here));
        }
        at
    }
}

proof fn lemma_among(
    mods: Seq<ModuleV>,
    m: int,
    executor_name: Seq<char>,
    acc: Seq<ChipSpecV>,
    at: Seq<Position>,
) -> (all: Seq<Position>)
    requires
        0 <= m <= mods.len(),
        listed(mods, executor_name, acc, at, (Position { module: m, item: 0 })),
    ensures
        listed(
            mods,
            executor_name,
            chips_among(mods, m, executor_name, acc),
            all,
            (Position { module: mods.len() as int, item: 0 }),
        ),
    decreases mods.len() - m,
{
    if m < mods.len() {
        let at2 = lemma_in_items(mods, m, 0, executor_name, acc, at);
        lemma_among(
            mods,
            m + 1,
            executor_name,
            chips_in(mods[m].file.items, 0, executor_name, acc),
            at2,
        )
    } else {
        at
    }
}

/// The chips of a workspace are those of all components, in any module, that have another name than
/// the executor, a computation and a constraint; each once, in the order of modules and items.
pub proof fn every_chip_is_collected(mods: Seq<ModuleV>, executor_name: Seq<char>)
    ensures
        exists|at: Seq<Position>|
            #![trigger listed(
                mods,
                executor_name,
                chips_among(mods, 0, executor_name, seq![]),
                at,
                Position { module: mods.len() as int, item: 0 },
            )]
            listed(
                mods,
                executor_name,
                chips_among(mods, 0, executor_name, seq![]),
                at,
                Position { module: mods.len() as int, item: 0 },
            ),
        forall|p: Position|
            is_position(mods, p) && has_chip(#[trigger] item_at(mods, p), executor_name)
                ==> exists|j: int|
                0 <= j < chips_among(mods, 0, executor_name, seq![]).len() && is_chip_of(
                    #[trigger] chips_among(mods, 0, executor_name, seq![])[j],
                    item_at(mods, p),
                ),
{
    let at = lemma_among(mods, 0, executor_name, seq![], seq![]);
    let chips = chips_among(mods, 0, executor_name, seq![]);
    let end = Position { module: mods.len() as int, item: 0 };
    assert(listed(mods, executor_name, chips, at, end));
    assert forall|p: Position|
        is_position(mods, p) && has_chip(#[trigger] item_at(mods, p), executor_name) implies exists|
        j: int,
    |
        0 <= j < chips.len() && is_chip_of(#[trigger] chips[j], item_at(mods, p)) by {
        assert(before(p, end));
        let j = choose|j: int| 0 <= j < at.len() && at[j] == p;
        assert(is_chip_of(chips[j], item_at(mods, at[j])));
    }
}

/// The item is a component with a computation whose name has `executor` or `builder` in it, in
/// letters of either case.
pub open spec fn can_execute(item: ItemV) -> bool {
    match item {
        ItemV::Component { name, members, .. } => (has_text(lower(name), "executor"@) || has_text(
            lower(name),
            "builder"@,
        )) && computes(members),
        _ => false,
    }
}

/// The function is the first computation of the item.
pub open spec fn is_computation_of(f: FuncV, item: ItemV) -> bool {
    match item {
        ItemV::Component { members, .. } => is_first_computation(members, f),
        _ => false,
    }
}

proof fn lemma_executor_in(items: Seq<ItemV>, i: int)
    requires
        0 <= i,
        forall|j: int| 0 <= j < i && j < items.len() ==> !can_execute(#[trigger] items[j]),
    ensures
        match executor_in(items, i) {
            Some(f) => exists|k: int|
                0 <= k < items.len() && can_execute(#[trigger] items[k]) && is_computation_of(
                    f,
                    items[k],
                ) && forall|j: int| 0 <= j < k ==> !can_execute(#[trigger] items[j]),
            None => forall|k: int| 0 <= k < items.len() ==> !can_execute(#[trigger] items[k]),
        },
    decreases items.len() - i,
{
    if i < items.len() {
        match items[i] {
            ItemV::Component { name, members, .. } => {
                lemma_computation(members, 0);
                if names_executor(name) && first_computation(members, 0) is Some {
                    assert(can_execute(items[i]));
                } else {
                    lemma_executor_in(items, i + 1);
                }
            },
            _ => lemma_executor_in(items, i + 1),
        }
    }
}

/// The executor is at a position: no item before it can execute.
pub open spec fn is_executor_at(mods: Seq<ModuleV>, f: FuncV, at: Position) -> bool {
    &&& is_position(mods, at)
    &&& can_execute(item_at(mods, at))
    &&& is_computation_of(f, item_at(mods, at))
    &&& forall|p: Position|
        is_position(mods, p) && before(p, at) ==> !can_execute(#[trigger] item_at(mods, p))
}

proof fn lemma_executor_among(mods: Seq<ModuleV>, m: int)
    requires
        0 <= m,
        forall|p: Position|
            is_position(mods, p) && p.module < m ==> !can_execute(#[trigger] item_at(mods, p)),
    ensures
        match executor_among(mods, m) {
            Some(f) => exists|at: Position| #[trigger] is_executor_at(mods, f, at),
            None => forall|p: Position|
                is_position(mods, p) ==> !can_execute(#[trigger] item_at(mods, p)),
        },
    decreases mods.len() - m,
{
    if m < mods.len() {
        let items = mods[m].file.items;
        lemma_executor_in(items, 0);
        match executor_in(items, 0) {
            Some(f) => {
                let k = choose|k: int|
                    0 <= k < items.len() && can_execute(#[trigger] items[k]) && is_computation_of(
                        f,
                        items[k],
                    ) && forall|j: int| 0 <= j < k ==> !can_execute(#[trigger] items[j]);
                let at = Position { module: m, item: k };
                assert forall|p: Position| is_position(mods, p) && before(p, at) implies
                    !can_execute(#[trigger] item_at(mods, p)) by {
                    if p.module == m {
                        assert(!can_execute(items[p.item]));
                    }
                }
                assert(is_executor_at(mods, f, at));
            },
            None => {
                assert forall|p: Position| is_position(mods, p) && p.module < m + 1 implies
                    !can_execute(#[trigger] item_at(mods, p)) by {
                    if p.module == m {
                        assert(!can_execute(items[p.item]));
                    }
                }
                lemma_executor_among(mods, m + 1);
            },
        }
    }
}

/// The executor is the first computation of the first component, in the order of modules and items,
/// that is named as an executor and has a computation; there is one iff there is such a component.
pub proof fn executor_is_the_first(mods: Seq<ModuleV>)
    ensures
        match executor_among(mods, 0) {
            Some(f) => exists|at: Position| #[trigger] is_executor_at(mods, f, at),
            None => forall|p: Position|
                is_position(mods, p) ==> !can_execute(#[trigger] item_at(mods, p)),
        },
{
    lemma_executor_among(mods, 0);
}

} // verus!
