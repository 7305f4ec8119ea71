use vstd::prelude::*;

use crate::color::{color_label, Color};
use crate::game::Outcome;

verus! {

/// What stands before the `i`-th of `n` names in a list: nothing before
/// the first, " and " between two names, ", and " before the last of three
/// or more, ", " elsewhere.
pub open spec fn name_separator(i: int, n: int) -> Seq<char> {
    if i == 0 {
        Seq::empty()
    } else if n == 2 {
        seq![' ', 'a', 'n', 'd', ' ']
    } else if i == n - 1 {
        seq![',', ' ', 'a', 'n', 'd', ' ']
    } else {
        seq![',', ' ']
    }
}

/// The first `k` names of `names`, each after its separator.
pub open spec fn names_joined(names: Seq<Seq<char>>, k: int) -> Seq<char>
    decreases k,
{
    if k <= 0 {
        Seq::empty()
    } else {
        names_joined(names, k - 1) + name_separator(k - 1, names.len() as int) + names[k - 1]
    }
}

/// The names of a list of people, as a sentence lists them: "A", "A and B", "A, B, and C".
pub open spec fn names_text(names: Seq<Seq<char>>) -> Seq<char> {
    names_joined(names, names.len() as int)
}

/// The line that announces how a game ended, given the winners' names.
pub open spec fn announcement_text(outcome: Outcome, names: Seq<Seq<char>>) -> Seq<char> {
    match outcome {
        Outcome::Tie => seq!['T', 'i', 'e', '.'],
        Outcome::Win(c) => {
            color_label(c) + (if names.len() == 1 { Seq::empty() } else { seq![' ', 't', 'e', 'a', 'm'] })
                + seq![' ', '('] + names_text(names) + seq![')', ' ', 'w', 'i', 'n', 's', '!']
        },
    }
}

/// The names of the winners, as a sentence lists them: "A", "A and B", "A, B, and C".
pub fn join_names(names: &Vec<String>) -> (r: String)
    ensures
        r@ == names_text(names@.map_values(|s: String| s@)),
{
    let ghost views = names@.map_values(|s: String| s@);
    proof {
        reveal_strlit(" and ");
        reveal_strlit(", and ");
        reveal_strlit(", ");
        assert(" and "@ =~= seq![' ', 'a', 'n', 'd', ' ']);
        assert(", and "@ =~= seq![',', ' ', 'a', 'n', 'd', ' ']);
        assert(", "@ =~= seq![',', ' ']);
    }
    let n = names.len();
    let mut out = String::new();
    let mut i: usize = 0;
    while i < n
        invariant
            n == names@.len(),
            views == names@.map_values(|s: String| s@),
            i <= n,
            out@ == names_joined(views, i as int),
            " and "@ == seq![' ', 'a', 'n', 'd', ' '],
            ", and "@ == seq![',', ' ', 'a', 'n', 'd', ' '],
            ", "@ == seq![',', ' '],
        decreases n - i,
    {
        let ghost before = out@;
        if i == 0 {
        } else if n == 2 {
            out.append(" and ");
        } else if i == n - 1 {
            out.append(", and ");
        } else {
            out.append(", ");
        }
        out.append(names[i].as_str());
        assert(out@ =~= before + name_separator(i as int, n as int) + views[i as int]);
        i += 1;
    }
    out
}

/// The line that announces how a game ended: "Red (A) wins!",
/// "Black team (A and B) wins!", or "Tie.".
pub fn announcement(outcome: Outcome, names: &Vec<String>) -> (r: String)
    ensures
        r@ == announcement_text(outcome, names@.map_values(|s: String| s@)),
{
    proof {
        reveal_strlit("Tie.");
        reveal_strlit(" team");
        reveal_strlit(" (");
        reveal_strlit(") wins!");
    }
    match outcome {
        Outcome::Tie => {
            let r = String::from_str("Tie.");
            assert(r@ =~= seq!['T', 'i', 'e', '.']);
            r
        },
        Outcome::Win(c) => {
            let mut r = String::from_str(c.label());
            if names.len() != 1 {
                r.append(" team");
            }
            r.append(" (");
            let joined = join_names(names);
            r.append(joined.as_str());
            r.append(") wins!");
            assert(r@ =~= announcement_text(outcome, names@.map_values(|s: String| s@)));
            r
        },
    }
}

} // verus!
