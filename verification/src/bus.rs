//! Durable per-group message log: the pull side of the fan-out bus.
//!
//! `sendGroup` appends an opaque ciphertext under a fresh entry
//! identifier; `fetchGroup` reads everything strictly after a caller's
//! cursor, in log order.  Identifiers are assigned in strictly increasing
//! order across the whole log, so each group's entries are strictly
//! increasing as well and the last identifier a client saw is a complete
//! resumption cursor.

use vstd::prelude::*;

use crate::ids::{EntryId, entry_id_lt};
use crate::text::str_eq;

verus! {

/// One appended message.
pub struct LogEntry {
    pub group_id: String,
    pub entry_id: EntryId,
    pub sender: String,
    pub ciphertext: String,
}

/// Ghost image of one appended message.
pub struct EntryV {
    pub group_id: Seq<char>,
    pub entry_id: EntryId,
    pub sender: Seq<char>,
    pub ciphertext: Seq<char>,
}

impl View for LogEntry {
    type V = EntryV;

    open spec fn view(&self) -> EntryV {
        EntryV {
            group_id: self.group_id@,
            entry_id: self.entry_id,
            sender: self.sender@,
            ciphertext: self.ciphertext@,
        }
    }
}

impl DeepView for LogEntry {
    type V = EntryV;

    open spec fn deep_view(&self) -> EntryV {
        self.view()
    }
}

/// Ghost image of the log.
pub struct BusV {
    pub entries: Seq<EntryV>,
    pub next_ms: u64,
}

/// The durable log.  Entry identifiers carry a counter that only grows,
/// so identifiers are assigned in strictly increasing order.
pub struct FanoutBus {
    pub entries: Vec<LogEntry>,
    pub next_ms: u64,
}

impl View for FanoutBus {
    type V = BusV;

    open spec fn view(&self) -> BusV {
        BusV { entries: self.entries@.map_values(|e: LogEntry| e@), next_ms: self.next_ms }
    }
}

/// The cursor that precedes every assigned identifier: a fresh reader
/// starts here.
pub open spec fn origin_id() -> EntryId {
    EntryId { ms: 0, seq: 0 }
}

/// Entry identifiers strictly increase along the sequence.
pub open spec fn ids_increasing(s: Seq<EntryV>) -> bool {
    forall|i: int, j: int|
        #![trigger s[i], s[j]]
        0 <= i < j < s.len() ==> entry_id_lt(s[i].entry_id, s[j].entry_id)
}

/// Well-formedness of the log: identifiers strictly increase, every
/// assigned identifier lies strictly between the origin and the counter.
pub open spec fn bus_wf(b: BusV) -> bool {
    &&& ids_increasing(b.entries)
    &&& 1 <= b.next_ms
    &&& forall|i: int|
        0 <= i < b.entries.len() ==> 1 <= #[trigger] b.entries[i].entry_id.ms < b.next_ms
}

/// The entries of group `g`, in log order.
pub open spec fn group_entries(s: Seq<EntryV>, g: Seq<char>) -> Seq<EntryV>
    decreases s.len(),
{
    if s.len() == 0 {
        Seq::empty()
    } else {
        group_entries(s.drop_last(), g) + if s.last().group_id == g {
            seq![s.last()]
        } else {
            Seq::empty()
        }
    }
}

/// The entries of group `g` strictly after cursor `c`, in log order.
pub open spec fn entries_after(s: Seq<EntryV>, g: Seq<char>, c: EntryId) -> Seq<EntryV>
    decreases s.len(),
{
    if s.len() == 0 {
        Seq::empty()
    } else {
        entries_after(s.drop_last(), g, c) + if s.last().group_id == g && entry_id_lt(
            c,
            s.last().entry_id,
        ) {
            seq![s.last()]
        } else {
            Seq::empty()
        }
    }
}

/// Appending one entry extends its group's view and no other's.
pub proof fn lemma_group_entries_push(s: Seq<EntryV>, e: EntryV, g: Seq<char>)
    ensures
        group_entries(s.push(e), g) == (if e.group_id == g {
            group_entries(s, g).push(e)
        } else {
            group_entries(s, g)
        }),
{
    assert(s.push(e).drop_last() =~= s);
    if e.group_id == g {
        assert(group_entries(s, g) + seq![e] =~= group_entries(s, g).push(e));
    } else {
        assert(group_entries(s, g) + Seq::<EntryV>::empty() =~= group_entries(s, g));
    }
}

/// A group's entries are entries of the log, in log order among
/// themselves.
pub proof fn lemma_group_entries_increasing(s: Seq<EntryV>, g: Seq<char>)
    requires
        ids_increasing(s),
    ensures
        ids_increasing(group_entries(s, g)),
        forall|k: int|
            0 <= k < group_entries(s, g).len() ==> exists|i: int|
                0 <= i < s.len() && s[i] == #[trigger] group_entries(s, g)[k],
    decreases s.len(),
{
    if s.len() > 0 {
        let pre = s.drop_last();
        lemma_group_entries_increasing(pre, g);
        let f = group_entries(s, g);
        let pf = group_entries(pre, g);
        if s.last().group_id == g {
            assert(f == pf + seq![s.last()]);
            assert forall|k: int| 0 <= k < f.len() implies exists|i: int|
                0 <= i < s.len() && s[i] == #[trigger] f[k] by {
                if k < pf.len() {
                    assert(f[k] == pf[k]);
                    let i = choose|i: int| 0 <= i < pre.len() && pre[i] == pf[k];
                    assert(s[i] == f[k]);
                } else {
                    assert(f[k] == s.last());
                    assert(s[s.len() - 1] == f[k]);
                }
            }
            assert forall|a: int, b: int|
                #![trigger f[a], f[b]]
                0 <= a < b < f.len() implies entry_id_lt(f[a].entry_id, f[b].entry_id) by {
                if b < pf.len() {
                    assert(entry_id_lt(pf[a].entry_id, pf[b].entry_id));
                } else {
                    assert(f[b] == s.last());
                    assert(f[a] == pf[a]);
                    let i = choose|i: int| 0 <= i < pre.len() && pre[i] == pf[a];
                    assert(s[i] == f[a]);
                    assert(entry_id_lt(s[i].entry_id, s[s.len() - 1].entry_id));
                }
            }
        } else {
            assert(f == pf);
            assert forall|k: int| 0 <= k < f.len() implies exists|i: int|
                0 <= i < s.len() && s[i] == #[trigger] f[k] by {
                let i = choose|i: int| 0 <= i < pre.len() && pre[i] == pf[k];
                assert(s[i] == f[k]);
            }
        }
    }
}

/// Every log entry of group `g` appears among the group's entries.
pub proof fn lemma_group_entries_complete(s: Seq<EntryV>, g: Seq<char>)
    ensures
        forall|i: int|
            0 <= i < s.len() && #[trigger] s[i].group_id == g ==> group_entries(s, g).contains(
                s[i],
            ),
    decreases s.len(),
{
    if s.len() > 0 {
        let pre = s.drop_last();
        lemma_group_entries_complete(pre, g);
        let f = group_entries(s, g);
        let pf = group_entries(pre, g);
        assert forall|i: int|
            0 <= i < s.len() && #[trigger] s[i].group_id == g implies f.contains(s[i]) by {
            if i < s.len() - 1 {
                assert(pre[i] == s[i]);
                assert(pf.contains(s[i]));
                let k = choose|k: int| 0 <= k < pf.len() && pf[k] == s[i];
                assert(f[k] == s[i]);
            } else {
                assert(f[f.len() - 1] == s.last());
            }
        }
    }
}

/// A cursor no earlier than every entry of the group reads nothing.
proof fn lemma_entries_after_none(s: Seq<EntryV>, g: Seq<char>, c: EntryId)
    requires
        forall|i: int|
            0 <= i < s.len() && #[trigger] s[i].group_id == g ==> !entry_id_lt(
                c,
                s[i].entry_id,
            ),
    ensures
        entries_after(s, g, c) == Seq::<EntryV>::empty(),
    decreases s.len(),
{
    if s.len() > 0 {
        let pre = s.drop_last();
        assert forall|i: int|
            0 <= i < pre.len() && #[trigger] pre[i].group_id == g implies !entry_id_lt(
            c,
            pre[i].entry_id,
        ) by {
            assert(s[i] == pre[i]);
        }
        lemma_entries_after_none(pre, g, c);
        assert(entries_after(s, g, c) =~= Seq::<EntryV>::empty());
    }
}

/// Fan-out ordering, first half.
///
/// Law: reading a group from the origin cursor returns exactly the
/// group's entries, in append order, with strictly increasing entry
/// identifiers.
pub proof fn lemma_fetch_from_origin(b: BusV, g: Seq<char>)
    requires
        bus_wf(b),
    ensures
        entries_after(b.entries, g, origin_id()) == group_entries(b.entries, g),
        ids_increasing(group_entries(b.entries, g)),
{
    lemma_group_entries_increasing(b.entries, g);
    lemma_origin_reads_all(b.entries, g);
}

/// Reading from the origin is reading the whole group, entry by entry.
proof fn lemma_origin_reads_all(s: Seq<EntryV>, g: Seq<char>)
    requires
        forall|i: int| 0 <= i < s.len() ==> 1 <= #[trigger] s[i].entry_id.ms,
    ensures
        entries_after(s, g, origin_id()) == group_entries(s, g),
    decreases s.len(),
{
    if s.len() > 0 {
        let pre = s.drop_last();
        assert forall|i: int| 0 <= i < pre.len() implies 1 <= #[trigger] pre[i].entry_id.ms by {
            assert(s[i] == pre[i]);
        }
        lemma_origin_reads_all(pre, g);
        assert(entry_id_lt(origin_id(), s.last().entry_id));
    }
}

/// Fan-out ordering, second half.
///
/// Law: reading a group from the cursor of its last entry returns
/// nothing.
pub proof fn lemma_fetch_after_last(b: BusV, g: Seq<char>)
    requires
        bus_wf(b),
        group_entries(b.entries, g).len() > 0,
    ensures
        entries_after(b.entries, g, group_entries(b.entries, g).last().entry_id) == Seq::<
            EntryV,
        >::empty(),
{
    let f = group_entries(b.entries, g);
    let c = f.last().entry_id;
    lemma_group_entries_increasing(b.entries, g);
    lemma_group_entries_complete(b.entries, g);
    assert forall|i: int|
        0 <= i < b.entries.len() && #[trigger] b.entries[i].group_id == g implies !entry_id_lt(
        c,
        b.entries[i].entry_id,
    ) by {
        let k = choose|k: int| 0 <= k < f.len() && f[k] == b.entries[i];
        if k < f.len() - 1 {
            assert(entry_id_lt(f[k].entry_id, f[f.len() - 1].entry_id));
        }
    }
    lemma_entries_after_none(b.entries, g, c);
}

impl FanoutBus {
    /// An empty log, with the identifier counter at its first value.
    pub fn new() -> (r: FanoutBus)
        ensures
            bus_wf(r@),
            r@.entries == Seq::<EntryV>::empty(),
            r@.next_ms == 1,
    {
        let r = FanoutBus { entries: Vec::new(), next_ms: 1 };
        proof {
            assert(r@.entries =~= Seq::<EntryV>::empty());
        }
        r
    }

    /// Append a message under a fresh identifier.  Returns `None`, and
    /// changes nothing, only when the identifier space is exhausted.
    pub fn append(&mut self, group_id: &str, sender: &str, ciphertext: &str) -> (r: Option<
        EntryId,
    >)
        requires
            bus_wf(old(self)@),
        ensures
            bus_wf(final(self)@),
            match r {
                Some(id) => {
                    &&& old(self)@.next_ms < u64::MAX
                    &&& id == (EntryId { ms: old(self)@.next_ms, seq: 0 })
                    &&& final(self)@.entries == old(self)@.entries.push(
                        (EntryV {
                            group_id: group_id@,
                            entry_id: id,
                            sender: sender@,
                            ciphertext: ciphertext@,
                        }),
                    )
                    &&& final(self)@.next_ms == old(self)@.next_ms + 1
                },
                None => old(self)@.next_ms == u64::MAX && final(self)@ == old(self)@,
            },
    {
        if self.next_ms == u64::MAX {
            return None;
        }
        let id = EntryId { ms: self.next_ms, seq: 0 };
        self.entries.push(
            LogEntry {
                group_id: group_id.to_owned(),
                entry_id: id,
                sender: sender.to_owned(),
                ciphertext: ciphertext.to_owned(),
            },
        );
        self.next_ms = self.next_ms + 1;
        proof {
            let e = EntryV {
                group_id: group_id@,
                entry_id: id,
                sender: sender@,
                ciphertext: ciphertext@,
            };
            let pre = old(self)@.entries;
            assert(self@.entries =~= pre.push(e));
            let s = self@.entries;
            assert forall|i: int, j: int|
                #![trigger s[i], s[j]]
                0 <= i < j < s.len() implies entry_id_lt(s[i].entry_id, s[j].entry_id) by {
                if j < pre.len() {
                    assert(entry_id_lt(pre[i].entry_id, pre[j].entry_id));
                } else {
                    assert(s[i] == pre[i]);
                    assert(pre[i].entry_id.ms < old(self)@.next_ms);
                }
            }
        }
        Some(id)
    }

    /// Read every entry of `group_id` strictly after `cursor`, in log
    /// order.
    pub fn read_after(&self, group_id: &str, cursor: EntryId) -> (r: Vec<LogEntry>)
        ensures
            r.deep_view() == entries_after(self@.entries, group_id@, cursor),
    {
        let n = self.entries.len();
        let mut acc: Vec<LogEntry> = Vec::new();
        let mut i: usize = 0;
        proof {
            assert(self@.entries.subrange(0, 0) =~= Seq::<EntryV>::empty());
            assert(acc.deep_view() =~= Seq::<EntryV>::empty());
        }
        while i < n
            invariant
                0 <= i <= n,
                n == self.entries.len(),
                acc.deep_view() == entries_after(
                    self@.entries.subrange(0, i as int),
                    group_id@,
                    cursor,
                ),
            decreases n - i,
        {
            let ghost prefix = self@.entries.subrange(0, i as int);
            let ghost extended = self@.entries.subrange(0, i as int + 1);
            proof {
                assert(extended.drop_last() =~= prefix);
                assert(extended.last() == self@.entries[i as int]);
            }
            let ghost acc_before = acc.deep_view();
            let e = &self.entries[i];
            if str_eq(e.group_id.as_str(), group_id) && cursor.lt(e.entry_id) {
                acc.push(
                    LogEntry {
                        group_id: e.group_id.clone(),
                        entry_id: e.entry_id,
                        sender: e.sender.clone(),
                        ciphertext: e.ciphertext.clone(),
                    },
                );
                proof {
                    assert(acc.deep_view() =~= acc_before + seq![self@.entries[i as int]]);
                }
            } else {
                proof {
                    assert(entries_after(extended, group_id@, cursor) =~= entries_after(
                        prefix,
                        group_id@,
                        cursor,
                    ));
                }
            }
            i += 1;
        }
        proof {
            assert(self@.entries.subrange(0, n as int) =~= self@.entries);
        }
        acc
    }
}

} // verus!
