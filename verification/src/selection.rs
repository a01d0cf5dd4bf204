//! The categories that a catalog of rules offers, and what is made of a
//! user's choice among them.

use crate::engine::{is_selected, rules_of};
use crate::rule::{names_of, CleanupRule, RuleModel};
use crate::size::{decimal, decimal_text};
use vstd::prelude::*;
use vstd::string::*;

verus! {

/// The categories of `rules`, rule by rule.
pub open spec fn categories_of(rules: Seq<RuleModel>) -> Seq<Seq<char>> {
    rules.map_values(|rule: RuleModel| rule.category)
}

/// The items of `items` without repetitions, each where it first appears.
pub open spec fn first_appearances(items: Seq<Seq<char>>) -> Seq<Seq<char>>
    decreases items.len(),
{
    if items.len() == 0 {
        Seq::<Seq<char>>::empty()
    } else {
        let before = first_appearances(items.drop_last());
        if before.contains(items.last()) {
            before
        } else {
            before.push(items.last())
        }
    }
}

/// The first place at which `items` holds `c`, or the length of `items` if
/// it holds `c` nowhere.
pub open spec fn first_place(items: Seq<Seq<char>>, c: Seq<char>) -> int
    decreases items.len(),
{
    if items.len() == 0 {
        0
    } else {
        let earlier = first_place(items.drop_last(), c);
        if earlier < items.len() - 1 {
            earlier
        } else if items.last() == c {
            items.len() - 1
        } else {
            items.len() as int
        }
    }
}

/// What [`first_place`] says it is.
pub proof fn lemma_first_place(items: Seq<Seq<char>>, c: Seq<char>)
    ensures
        0 <= first_place(items, c) <= items.len(),
        first_place(items, c) < items.len() <==> items.contains(c),
        first_place(items, c) < items.len() ==> items[first_place(items, c)] == c,
        forall|j: int| 0 <= j < first_place(items, c) ==> items[j] != c,
    decreases items.len(),
{
    if items.len() > 0 {
        let init = items.drop_last();
        lemma_first_place(init, c);
        assert forall|j: int| 0 <= j < first_place(items, c) implies items[j] != c by {
            if j < init.len() {
                assert(init[j] == items[j]);
            }
        }
    }
}

/// The first appearances of a sequence hold each of its items, nothing else,
/// and nothing twice; and of two of them the one that comes first is the one
/// that the sequence holds first.
pub proof fn lemma_first_appearances(items: Seq<Seq<char>>)
    ensures
        first_appearances(items).no_duplicates(),
        forall|c: Seq<char>| first_appearances(items).contains(c) <==> items.contains(c),
        forall|i: int, j: int|
            0 <= i < j < first_appearances(items).len() ==> first_place(
                items,
                #[trigger] first_appearances(items)[i],
            ) < first_place(items, #[trigger] first_appearances(items)[j]),
    decreases items.len(),
{
    let firsts = first_appearances(items);
    if items.len() > 0 {
        let init = items.drop_last();
        let before = first_appearances(init);
        lemma_first_appearances(init);
        assert forall|c: Seq<char>| firsts.contains(c) <==> items.contains(c) by {
            if items.contains(c) {
                let k = choose|k: int| 0 <= k < items.len() && items[k] == c;
                if k < init.len() {
                    assert(init[k] == c);
                    assert(init.contains(c));
                    let t = choose|t: int| 0 <= t < before.len() && before[t] == c;
                    assert(firsts[t] == c);
                } else if !before.contains(c) {
                    assert(firsts[before.len() as int] == c);
                }
            }
            if firsts.contains(c) {
                let t = choose|t: int| 0 <= t < firsts.len() && firsts[t] == c;
                if t < before.len() {
                    assert(init.contains(c));
                }
            }
        }
        assert forall|i: int, j: int| 0 <= i < j < firsts.len() implies first_place(
            items,
            #[trigger] firsts[i],
        ) < first_place(items, #[trigger] firsts[j]) by {
            lemma_first_place(init, firsts[i]);
            lemma_first_place(init, firsts[j]);
        }
    }
}

/// The categories that `rules` offer for selection: each once, in the order
/// in which the rules first name them.
pub fn categories(rules: &Vec<CleanupRule>) -> (offered: Vec<String>)
    ensures
        names_of(offered@) == first_appearances(categories_of(rules_of(rules@))),
{
    let mut offered: Vec<String> = Vec::new();
    let ghost all = categories_of(rules_of(rules@));
    let mut i: usize = 0;
    while i < rules.len()
        invariant
            i <= rules.len(),
            all == categories_of(rules_of(rules@)),
            names_of(offered@) == first_appearances(all.take(i as int)),
        decreases rules.len() - i,
    {
        let category = rules[i].category();
        assert(all.take(i + 1).drop_last() =~= all.take(i as int));
        if !is_selected(&offered, category) {
            offered.push(category.clone());
        }
        i += 1;
    }
    assert(all.take(i as int) =~= all);
    offered
}

/// Why a selection cannot be worked with.
#[derive(Clone, Copy, Debug, PartialEq, Eq, Structural)]
pub enum SelectionError {
    /// Not one category was selected.
    NothingSelected,
}

/// Accepts a selection of `count` categories unless it is empty.
pub fn check_selection(count: usize) -> (checked: Result<(), SelectionError>)
    ensures
        checked is Ok <==> count >= 1,
        checked is Err ==> checked == Err::<(), SelectionError>(SelectionError::NothingSelected),
{
    if count < 1 {
        Err(SelectionError::NothingSelected)
    } else {
        Ok(())
    }
}

impl SelectionError {
    /// What to tell the user.
    pub fn message(&self) -> (text: String)
        ensures
            text@ == "No category is selected!"@,
    {
        String::from_str("No category is selected!")
    }
}

/// How a selection of `count` categories is summed up once it is made.
pub fn selection_summary(count: usize) -> (text: String)
    ensures
        text@ == decimal(count as nat) + " selected categories"@,
{
    decimal_text(count as u64).concat(" selected categories")
}

} // verus!
