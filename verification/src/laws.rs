//! The storage engine's global guarantees, stated and proved once.
//!
//! Each law is a public proof over the same specifications the handle's
//! contracts use, so a caller can compose it with those contracts: what a
//! persisted handle's files hold is exactly its in-memory state, and a key
//! derived again from the same passphrase, salt and cost parameters opens
//! them to the same state.

use vstd::prelude::*;
use crate::store::{Storage, stored_state, key_view, wrapper_of_snapshot};
use crate::records::state_view;
use crate::crypto::derived_key_of;
use crate::event::EventV;

verus! {

/// Round trip: a persisted handle's snapshot and active log parse and
/// replay to precisely its in-memory state — identical sessions, branches
/// and per-session events.  Opening the same file image in the same
/// encoding therefore reproduces the state, whether mutations rewrote the
/// snapshot or appended log records.
pub proof fn lemma_persisted_files_reproduce_state(h: Storage)
    requires
        h.wf(),
        h.persisted,
    ensures
        stored_state(
            h.persistence_format,
            key_view(h.encryption_key),
            h.snapshot_view(),
            h.files.log@,
        ) == Some(state_view(h.state)),
{
}

/// Encrypted round trip, and what passphrase rotation preserves: a
/// persisted encrypted handle's snapshot is a wrapper recording the
/// handle's own salt, and the key derived again from the same passphrase,
/// that recorded salt and the pinned cost parameters opens the files to
/// the full state.  A reopening constructor therefore re-derives exactly
/// the handle's key from what the wrapper records, and its success-owing
/// contract returns every stored session, branch and event unchanged.
/// After `change_passphrase` the handle satisfies these premises for the
/// new passphrase.
pub proof fn lemma_same_passphrase_reopens(h: Storage, passphrase: Seq<char>)
    requires
        h.wf(),
        h.persisted,
        h.encryption_salt matches Some(s) && (h.encryption_key matches Some(k)
            && (h.argon2_config matches Some(c) && k@ == derived_key_of(
            passphrase,
            s@,
            c.memory_kib,
            c.iterations,
            c.parallelism,
        ))),
    ensures
        h.encryption_salt matches Some(s) && (h.argon2_config matches Some(c)
            && stored_state(
            h.persistence_format,
            Some(
                derived_key_of(passphrase, s@, c.memory_kib, c.iterations, c.parallelism),
            ),
            h.snapshot_view(),
            h.files.log@,
        ) == Some(state_view(h.state))),
        h.files.snapshot matches Some(b) ==> (wrapper_of_snapshot(
            h.persistence_format,
            b@,
        ) matches Some(w) && (h.encryption_salt matches Some(s) && w.0 == s@)),
{
}

/// With sequence numbers pairwise distinct — the caller-owed discipline —
/// a session's sorted event listing is unique: any sorted permutation of
/// it is the listing itself.  Combined with the read contracts (a sorted
/// permutation of the stored events) this pins every windowed read, such
/// as the highest `n` events in ascending order, to exactly one value.
pub proof fn lemma_sorted_distinct_permutation(a: Seq<EventV>, b: Seq<EventV>)
    requires
        a.to_multiset() == b.to_multiset(),
        forall|i: int, j: int|
            0 <= i < j < a.len() ==> a[i].sequence_number < a[j].sequence_number,
        forall|i: int, j: int|
            0 <= i < j < b.len() ==> b[i].sequence_number <= b[j].sequence_number,
    ensures
        a == b,
    decreases a.len(),
{
    broadcast use vstd::seq_lib::group_to_multiset_ensures;
    broadcast use vstd::multiset::group_multiset_axioms;

    vstd::seq_lib::to_multiset_len(a);
    vstd::seq_lib::to_multiset_len(b);
    assert(a.len() == b.len());
    if a.len() == 0 {
        assert(a =~= b);
    } else {
        assert(b.to_multiset().count(b[0]) > 0);
        assert(a.to_multiset().count(b[0]) > 0);
        assert(a.contains(b[0]));
        let k = choose|k: int| 0 <= k < a.len() && a[k] == b[0];
        assert(a[0].sequence_number <= a[k].sequence_number);
        assert(b.to_multiset().count(a[0]) > 0) by {
            assert(a.to_multiset().count(a[0]) > 0) by {
                assert(a.contains(a[0]));
            }
        }
        assert(b.contains(a[0]));
        let m = choose|m: int| 0 <= m < b.len() && b[m] == a[0];
        assert(b[0].sequence_number <= b[m].sequence_number);
        assert(a[0].sequence_number == b[0].sequence_number);
        assert(k == 0) by {
            if k > 0 {
                assert(a[0].sequence_number < a[k].sequence_number);
            }
        }
        assert(a[0] == b[0]);
        let at = a.drop_first();
        let bt = b.drop_first();
        assert(at.to_multiset() == bt.to_multiset()) by {
            assert(at =~= a.remove(0));
            assert(bt =~= b.remove(0));
            assert(a.remove(0).to_multiset() =~= a.to_multiset().remove(a[0]));
            assert(b.remove(0).to_multiset() =~= b.to_multiset().remove(b[0]));
            assert(a.to_multiset().remove(a[0]) =~= b.to_multiset().remove(b[0]));
        }
        assert(forall|i: int, j: int|
            0 <= i < j < at.len() ==> at[i].sequence_number < at[j].sequence_number) by {
            assert(forall|i: int| 0 <= i < at.len() ==> at[i] == a[i + 1]);
        }
        assert(forall|i: int, j: int|
            0 <= i < j < bt.len() ==> bt[i].sequence_number <= bt[j].sequence_number) by {
            assert(forall|i: int| 0 <= i < bt.len() ==> bt[i] == b[i + 1]);
        }
        lemma_sorted_distinct_permutation(at, bt);
        assert(a =~= b) by {
            assert forall|i: int| 0 <= i < a.len() implies a[i] == b[i] by {
                if i > 0 {
                    assert(at[i - 1] == a[i]);
                    assert(bt[i - 1] == b[i]);
                    assert(at[i - 1] == bt[i - 1]);
                }
            }
        }
    }
}

} // verus!
