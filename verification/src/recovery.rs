//! What happens to a registry entry when the files behind it could not be removed.
//!
//! Only an explicit answer of the user lets the registry and the filesystem drift apart: the
//! entry is dropped although its files are still there. Without that answer the entry stays.

use vstd::prelude::*;
use crate::output::trim;
use crate::output::trimmed;
use crate::registry::Registry;
use crate::text::same_text;

verus! {

/// The lower-case form of `s`, as std's `str::to_lowercase` gives it.
pub uninterp spec fn lowercased(s: Seq<char>) -> Seq<char>;

/// std's `str::to_lowercase`.
#[verifier::external_body]
fn to_lowercase(s: &str) -> (r: String)
    ensures
        r@ == lowercased(s@),
{
    s.to_lowercase()
}

/// Whether a line typed at the prompt agrees: it does when it reads `y`, in either case and with
/// any white space around it.
pub open spec fn says_yes(line: Seq<char>) -> bool {
    lowercased(trimmed(line)) == seq!['y']
}

/// Whether an answer, trimmed and in lower case, is a yes.
pub fn answer_is_yes(normalized: &str) -> (yes: bool)
    ensures
        yes == (normalized@ == seq!['y']),
{
    proof {
        reveal_strlit("y");
    }
    assert("y"@ =~= seq!['y']);
    same_text(normalized, "y")
}

/// Whether a line typed at the prompt agrees.
pub fn interpret_answer(line: &str) -> (yes: bool)
    ensures
        yes == says_yes(line@),
{
    let t = trim(line);
    let l = to_lowercase(t.as_str());
    answer_is_yes(l.as_str())
}

/// Decides, after a failed removal of files, whether the registry entry is dropped all the
/// same. `answer` is the line the user typed when asked, or nothing where none could be read.
pub fn reconcile_on_failure(answer: &Option<String>) -> (drop_entry: bool)
    ensures
        drop_entry == match *answer {
            Some(line) => says_yes(line@),
            None => false,
        },
{
    match answer {
        Some(line) => interpret_answer(line.as_str()),
        None => false,
    }
}

/// How the removal of one target's files ended.
#[derive(Debug, Clone, Copy, PartialEq, Eq, Structural)]
pub enum RemovalOutcome {
    /// The files are gone.
    Deleted,
    /// The files could not be removed, and the user chose to drop the entry all the same.
    Orphaned,
    /// The files could not be removed, and the entry stays.
    Kept,
}

/// What was done about one target of a removal.
#[derive(Debug, Clone, Copy, PartialEq, Eq, Structural)]
pub enum RemovalReport {
    /// No entry has that name.
    NotFound,
    /// Files and entry are gone.
    Removed,
    /// The entry is gone, its files are still there.
    RegistryOnly,
    /// Nothing changed.
    Kept,
}

/// How an attempt to remove files ends for the registry, given the user's answer where the
/// attempt failed.
pub fn removal_outcome(deleted: bool, answer: &Option<String>) -> (outcome: RemovalOutcome)
    ensures
        outcome == if deleted {
            RemovalOutcome::Deleted
        } else if (match *answer {
            Some(line) => says_yes(line@),
            None => false,
        }) {
            RemovalOutcome::Orphaned
        } else {
            RemovalOutcome::Kept
        },
{
    if deleted {
        RemovalOutcome::Deleted
    } else if reconcile_on_failure(answer) {
        RemovalOutcome::Orphaned
    } else {
        RemovalOutcome::Kept
    }
}

/// The registry after one target of a removal is settled.
pub open spec fn after_removal<T>(
    m: Map<Seq<char>, T>,
    name: Seq<char>,
    outcome: RemovalOutcome,
) -> Map<Seq<char>, T> {
    if outcome == RemovalOutcome::Kept {
        m
    } else {
        m.remove(name)
    }
}

/// What is reported about one target of a removal.
pub open spec fn removal_report<T>(
    m: Map<Seq<char>, T>,
    name: Seq<char>,
    outcome: RemovalOutcome,
) -> RemovalReport {
    if !m.contains_key(name) {
        RemovalReport::NotFound
    } else {
        match outcome {
            RemovalOutcome::Deleted => RemovalReport::Removed,
            RemovalOutcome::Orphaned => RemovalReport::RegistryOnly,
            RemovalOutcome::Kept => RemovalReport::Kept,
        }
    }
}

/// The registry after the targets of a removal are settled one after the other.
pub open spec fn after_removals<T>(
    m: Map<Seq<char>, T>,
    targets: Seq<(Seq<char>, RemovalOutcome)>,
) -> Map<Seq<char>, T>
    decreases targets.len(),
{
    if targets.len() == 0 {
        m
    } else {
        after_removal(after_removals(m, targets.drop_last()), targets.last().0, targets.last().1)
    }
}

/// Settles one target of a removal: the entry goes unless its files could not be removed and
/// the user did not agree to drop it.
pub fn settle_removal<V: View>(registry: &mut Registry<V>, name: &str, outcome: RemovalOutcome) -> (report:
    RemovalReport)
    ensures
        final(registry)@ == after_removal(old(registry)@, name@, outcome),
        report == removal_report(old(registry)@, name@, outcome),
{
    if !registry.contains(name) {
        assert(registry@.remove(name@) =~= registry@);
        return RemovalReport::NotFound;
    }
    match outcome {
        RemovalOutcome::Deleted => {
            let _ = registry.remove(name);
            RemovalReport::Removed
        },
        RemovalOutcome::Orphaned => {
            let _ = registry.remove(name);
            RemovalReport::RegistryOnly
        },
        RemovalOutcome::Kept => RemovalReport::Kept,
    }
}

/// After a batch of removals an entry is there exactly if it was there before and no target
/// other than a kept one names it; and it holds what it held.
pub proof fn lemma_after_removals<T>(
    m: Map<Seq<char>, T>,
    targets: Seq<(Seq<char>, RemovalOutcome)>,
    k: Seq<char>,
)
    ensures
        after_removals(m, targets).contains_key(k) <==> m.contains_key(k) && forall|i: int|
            0 <= i < targets.len() && (#[trigger] targets[i]).0 == k ==> targets[i].1
                == RemovalOutcome::Kept,
        after_removals(m, targets).contains_key(k) ==> after_removals(m, targets)[k] == m[k],
    decreases targets.len(),
{
    if targets.len() > 0 {
        let p = targets.drop_last();
        lemma_after_removals(m, p, k);
        assert(forall|i: int| 0 <= i < p.len() ==> p[i] == targets[i]);
        if after_removals(m, targets).contains_key(k) {
            assert forall|i: int| 0 <= i < targets.len() && (#[trigger] targets[i]).0
                == k implies targets[i].1 == RemovalOutcome::Kept by {
                if i < p.len() {
                    assert(p[i].0 == k);
                }
            }
        } else if m.contains_key(k) {
            if after_removals(m, p).contains_key(k) {
                assert(targets[targets.len() - 1].0 == k);
            } else {
                let i = choose|i: int|
                    0 <= i < p.len() && (#[trigger] p[i]).0 == k && p[i].1 != RemovalOutcome::Kept;
                assert(targets[i].0 == k);
            }
        }
    }
}

/// One failure in a batch of removals touches no other target. Where the files of every target
/// but one are removed, the entries of those targets are gone; the entry of the one that failed
/// is as it was, unless the user chose to drop it; and what the batch does not name is as it was.
pub proof fn lemma_removal_failure_isolated<T>(
    m: Map<Seq<char>, T>,
    targets: Seq<(Seq<char>, RemovalOutcome)>,
    failed: int,
)
    requires
        0 <= failed < targets.len(),
        forall|i: int| 0 <= i < targets.len() && i != failed ==> (#[trigger] targets[i]).1
            == RemovalOutcome::Deleted,
        forall|i: int| 0 <= i < targets.len() && i != failed ==> (#[trigger] targets[i]).0
            != targets[failed].0,
    ensures
        forall|i: int| 0 <= i < targets.len() && i != failed ==> !after_removals(m, targets).contains_key(
            (#[trigger] targets[i]).0,
        ),
        targets[failed].1 == RemovalOutcome::Kept ==> (after_removals(m, targets).contains_key(
            targets[failed].0,
        ) <==> m.contains_key(targets[failed].0)),
        targets[failed].1 == RemovalOutcome::Kept && m.contains_key(targets[failed].0) ==> after_removals(
            m,
            targets,
        )[targets[failed].0] == m[targets[failed].0],
        targets[failed].1 != RemovalOutcome::Kept ==> !after_removals(m, targets).contains_key(
            targets[failed].0,
        ),
        forall|k: Seq<char>|
            (forall|i: int| 0 <= i < targets.len() ==> (#[trigger] targets[i]).0 != k) ==> (
            #[trigger] after_removals(m, targets).contains_key(k) <==> m.contains_key(k)),
        forall|k: Seq<char>|
            (forall|i: int| 0 <= i < targets.len() ==> (#[trigger] targets[i]).0 != k) && m.contains_key(k)
                ==> #[trigger] after_removals(m, targets)[k] == m[k],
{
    let r = after_removals(m, targets);
    assert forall|i: int| 0 <= i < targets.len() && i != failed implies !r.contains_key(
        (#[trigger] targets[i]).0,
    ) by {
        lemma_after_removals(m, targets, targets[i].0);
    }
    lemma_after_removals(m, targets, targets[failed].0);
    assert forall|k: Seq<char>|
        (forall|i: int| 0 <= i < targets.len() ==> (#[trigger] targets[i]).0 != k) implies (
        #[trigger] r.contains_key(k) <==> m.contains_key(k)) by {
        lemma_after_removals(m, targets, k);
    }
    assert forall|k: Seq<char>|
        (forall|i: int| 0 <= i < targets.len() ==> (#[trigger] targets[i]).0 != k) && m.contains_key(
            k,
        ) implies #[trigger] r[k] == m[k] by {
        lemma_after_removals(m, targets, k);
    }
}

} // verus!
