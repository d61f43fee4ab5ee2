//! The list of recently used ledgers, most recent first.

use vstd::prelude::*;
use crate::text::same_text;

verus! {

/// How many recently used ledgers are remembered.
pub const MAX_RECENT_LEDGERS: usize = 50;

/// `entries` without those that read `path`.
pub open spec fn without_path(entries: Seq<String>, path: Seq<char>) -> Seq<String>
    decreases entries.len(),
{
    if entries.len() == 0 {
        Seq::empty()
    } else if entries.last()@ == path {
        without_path(entries.drop_last(), path)
    } else {
        without_path(entries.drop_last(), path).push(entries.last())
    }
}

/// The list after `path` was used: `path` first, then the other entries in
/// their order, cut to `MAX_RECENT_LEDGERS` entries.
pub open spec fn remembered(entries: Seq<String>, path: String) -> Seq<String> {
    let all = seq![path] + without_path(entries, path@);
    if all.len() > MAX_RECENT_LEDGERS {
        all.take(MAX_RECENT_LEDGERS as int)
    } else {
        all
    }
}

/// Moves `path` to the front of the list of recently used ledgers, adding it
/// if it is new, and drops what no longer fits.
pub fn remember_ledger(entries: &Vec<String>, path: String) -> (recent: Vec<String>)
    ensures
        recent@ == remembered(entries@, path),
{
    let ghost all = seq![path] + without_path(entries@, path@);
    let mut recent: Vec<String> = Vec::new();
    recent.push(path.clone());
    let n: usize = entries.len();
    let mut i: usize = 0;
    proof {
        assert(entries@.take(0) =~= Seq::<String>::empty());
        assert(recent@ =~= seq![path] + without_path(entries@.take(0), path@));
    }
    while i < n
        invariant
            i <= n,
            n == entries@.len(),
            recent@.len() <= MAX_RECENT_LEDGERS,
            ({
                let kept = seq![path] + without_path(entries@.take(i as int), path@);
                if kept.len() > MAX_RECENT_LEDGERS {
                    recent@ == kept.take(MAX_RECENT_LEDGERS as int)
                } else {
                    recent@ == kept
                }
            }),
        decreases n - i,
    {
        proof {
            assert(entries@.take(i + 1).drop_last() =~= entries@.take(i as int));
            assert(entries@.take(i + 1).last() == entries@[i as int]);
        }
        let ghost kept = seq![path] + without_path(entries@.take(i as int), path@);
        if !same_text(entries[i].as_str(), path.as_str()) {
            let ghost next = seq![path] + without_path(entries@.take(i + 1), path@);
            proof {
                assert(next =~= kept.push(entries@[i as int]));
            }
            if recent.len() < MAX_RECENT_LEDGERS {
                recent.push(entries[i].clone());
                proof {
                    assert(recent@ =~= next);
                }
            } else {
                proof {
                    assert(next.take(MAX_RECENT_LEDGERS as int) =~= kept.take(
                        MAX_RECENT_LEDGERS as int,
                    ));
                }
            }
        }
        i = i + 1;
    }
    proof {
        assert(entries@.take(n as int) =~= entries@);
    }
    recent
}

} // verus!
