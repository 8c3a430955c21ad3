//! The ledger of recipients that have already been paid.
use vstd::prelude::*;

verus! {

/// What is known of one award, in mathematical terms.
pub struct EntryView {
    pub recipient: Seq<char>,
    pub awarded_at: int,
    pub amount: nat,
    pub tx_reference: Seq<char>,
}

/// One rewarded recipient: who, when (milliseconds since the Unix epoch, UTC),
/// how much (smallest token unit) and the transaction that paid it.
#[derive(Debug)]
pub struct LedgerEntry {
    pub recipient: String,
    pub awarded_at: i64,
    pub amount: u128,
    pub tx_reference: String,
}

impl View for LedgerEntry {
    type V = EntryView;

    open spec fn view(&self) -> EntryView {
        EntryView {
            recipient: self.recipient@,
            awarded_at: self.awarded_at as int,
            amount: self.amount as nat,
            tx_reference: self.tx_reference@,
        }
    }
}

impl LedgerEntry {
    pub fn new(recipient: String, awarded_at: i64, amount: u128, tx_reference: String) -> (r: Self)
        ensures
            r.recipient == recipient,
            r.awarded_at == awarded_at,
            r.amount == amount,
            r.tx_reference == tx_reference,
    {
        LedgerEntry { recipient, awarded_at, amount, tx_reference }
    }
}

pub open spec fn entry_views(s: Seq<LedgerEntry>) -> Seq<EntryView> {
    s.map_values(|e: LedgerEntry| e@)
}

/// The map that a list of entries stands for: each recipient to its entry,
/// a later entry for the same recipient taking the place of an earlier one.
pub open spec fn award_map(s: Seq<EntryView>) -> Map<Seq<char>, EntryView>
    decreases s.len(),
{
    if s.len() == 0 {
        Map::empty()
    } else {
        award_map(s.drop_last()).insert(s.last().recipient, s.last())
    }
}

/// No two entries name the same recipient.
pub open spec fn unique_recipients(s: Seq<EntryView>) -> bool {
    forall|i: int, j: int|
        0 <= i < s.len() && 0 <= j < s.len() && i != j ==> s[i].recipient != s[j].recipient
}

proof fn lemma_award_map_domain(s: Seq<EntryView>, k: Seq<char>)
    ensures
        award_map(s).contains_key(k) <==> exists|i: int| 0 <= i < s.len() && s[i].recipient == k,
    decreases s.len(),
{
    if s.len() > 0 {
        let t = s.drop_last();
        lemma_award_map_domain(t, k);
        if exists|i: int| 0 <= i < t.len() && t[i].recipient == k {
            let i = choose|i: int| 0 <= i < t.len() && t[i].recipient == k;
            assert(s[i] == t[i]);
        }
        if exists|i: int| 0 <= i < s.len() && s[i].recipient == k {
            let i = choose|i: int| 0 <= i < s.len() && s[i].recipient == k;
            if i < t.len() {
                assert(t[i] == s[i]);
            }
        }
    }
}

proof fn lemma_award_map_at(s: Seq<EntryView>, i: int)
    requires
        unique_recipients(s),
        0 <= i < s.len(),
    ensures
        award_map(s).contains_key(s[i].recipient),
        award_map(s)[s[i].recipient] == s[i],
    decreases s.len(),
{
    let t = s.drop_last();
    if i < s.len() - 1 {
        assert(t[i] == s[i]);
        assert(unique_recipients(t)) by {
            assert forall|a: int, b: int|
                0 <= a < t.len() && 0 <= b < t.len() && a != b implies t[a].recipient
                != t[b].recipient by {
                assert(t[a] == s[a] && t[b] == s[b]);
            }
        }
        lemma_award_map_at(t, i);
        assert(s.last().recipient != s[i].recipient);
    }
}

/// Replacing the entry of a recipient, or appending one for a new recipient,
/// changes the map at that recipient alone.
proof fn lemma_award_map_update(s: Seq<EntryView>, j: int, e: EntryView)
    requires
        unique_recipients(s),
        0 <= j < s.len(),
        s[j].recipient == e.recipient,
    ensures
        unique_recipients(s.update(j, e)),
        award_map(s.update(j, e)) == award_map(s).insert(e.recipient, e),
{
    let u = s.update(j, e);
    assert(unique_recipients(u)) by {
        assert forall|a: int, b: int|
            0 <= a < u.len() && 0 <= b < u.len() && a != b implies u[a].recipient
            != u[b].recipient by {
            if a != j && b != j {
                assert(u[a] == s[a] && u[b] == s[b]);
            } else if a == j {
                assert(u[b] == s[b]);
            } else {
                assert(u[a] == s[a]);
            }
        }
    }
    let m1 = award_map(u);
    let m2 = award_map(s).insert(e.recipient, e);
    assert forall|k: Seq<char>| m1.contains_key(k) <==> m2.contains_key(k) by {
        lemma_award_map_domain(u, k);
        lemma_award_map_domain(s, k);
        if exists|i: int| 0 <= i < s.len() && s[i].recipient == k {
            let i = choose|i: int| 0 <= i < s.len() && s[i].recipient == k;
            if i == j {
                assert(u[j].recipient == k);
            } else {
                assert(u[i] == s[i]);
            }
        }
        if exists|i: int| 0 <= i < u.len() && u[i].recipient == k {
            let i = choose|i: int| 0 <= i < u.len() && u[i].recipient == k;
            if i != j {
                assert(u[i] == s[i]);
            }
        }
    }
    assert forall|k: Seq<char>| m1.contains_key(k) implies m1[k] == m2[k] by {
        lemma_award_map_domain(u, k);
        let i = choose|i: int| 0 <= i < u.len() && u[i].recipient == k;
        lemma_award_map_at(u, i);
        if i != j {
            assert(u[i] == s[i]);
            lemma_award_map_at(s, i);
        }
    }
    assert(m1 =~= m2);
}

proof fn lemma_award_map_push(s: Seq<EntryView>, e: EntryView)
    requires
        unique_recipients(s),
        !award_map(s).contains_key(e.recipient),
    ensures
        unique_recipients(s.push(e)),
        award_map(s.push(e)) == award_map(s).insert(e.recipient, e),
{
    let u = s.push(e);
    assert(u.drop_last() =~= s);
    assert forall|a: int, b: int|
        0 <= a < u.len() && 0 <= b < u.len() && a != b implies u[a].recipient
        != u[b].recipient by {
        lemma_award_map_domain(s, e.recipient);
        if a < s.len() && b < s.len() {
            assert(u[a] == s[a] && u[b] == s[b]);
        } else if a < s.len() {
            assert(u[a] == s[a]);
        } else {
            assert(u[b] == s[b]);
        }
    }
}


/// Why an award could not be recorded.
#[derive(Debug, Clone, Copy, PartialEq, Eq, Structural)]
pub enum RecordError {
    /// The recipient already has an entry; entries are never replaced.
    AlreadyPaid,
}

/// The ledger after recording `e` in `m`, or `None` where `e`'s recipient is
/// already paid.
pub open spec fn recorded(m: Map<Seq<char>, EntryView>, e: EntryView) -> Option<
    Map<Seq<char>, EntryView>,
> {
    if m.contains_key(e.recipient) {
        None
    } else {
        Some(m.insert(e.recipient, e))
    }
}

/// The ledger that durable storage yields: nothing where it was missing or
/// unreadable, else the entries it held.
pub open spec fn loaded_map(stored: Option<Seq<EntryView>>) -> Map<Seq<char>, EntryView> {
    match stored {
        None => Map::empty(),
        Some(s) => award_map(s),
    }
}

/// Relies on chrono's `Utc::now`: the current time as milliseconds since the
/// Unix epoch. Nothing is promised of the value; `Utc::now` panics only where
/// the system clock reads a time before the epoch.
#[verifier::external_body]
fn now_millis() -> (r: i64) {
    chrono::Utc::now().timestamp_millis()
}

/// The recipients paid so far. Each recipient has at most one entry, and an
/// entry once made is never changed or removed.
pub struct Ledger {
    entries: Vec<LedgerEntry>,
}

impl View for Ledger {
    type V = Map<Seq<char>, EntryView>;

    closed spec fn view(&self) -> Map<Seq<char>, EntryView> {
        award_map(entry_views(self.entries@))
    }
}

/// Where the entry for `recipient` stands in `entries`, if anywhere.
fn position(entries: &Vec<LedgerEntry>, recipient: &String) -> (r: Option<usize>)
    ensures
        match r {
            Some(j) => j < entries.len() && entries@[j as int].recipient@ == recipient@,
            None => forall|i: int| 0 <= i < entries.len() ==> entries@[i].recipient@ != recipient@,
        },
{
    let mut i: usize = 0;
    while i < entries.len()
        invariant
            i <= entries.len(),
            forall|k: int| 0 <= k < i ==> entries@[k].recipient@ != recipient@,
        decreases entries.len() - i,
    {
        if entries[i].recipient == *recipient {
            return Some(i);
        }
        i = i + 1;
    }
    None
}

fn copy_entry(e: &LedgerEntry) -> (r: LedgerEntry)
    ensures
        r@ == e@,
{
    LedgerEntry {
        recipient: e.recipient.clone(),
        awarded_at: e.awarded_at,
        amount: e.amount,
        tx_reference: e.tx_reference.clone(),
    }
}

impl Ledger {
    /// Each recipient has at most one entry.
    pub closed spec fn wf(&self) -> bool {
        unique_recipients(entry_views(self.entries@))
    }

    /// A ledger with nobody paid.
    pub fn new() -> (r: Self)
        ensures
            r.wf(),
            r@ == Map::<Seq<char>, EntryView>::empty(),
    {
        Ledger { entries: Vec::new() }
    }

    /// The ledger as durable storage yields it: empty where the stored state
    /// was missing or malformed (`None`), else the stored entries, a later
    /// entry for a recipient taking the place of an earlier one.
    pub fn load_from(stored: Option<Vec<LedgerEntry>>) -> (r: Self)
        ensures
            r.wf(),
            r@ == loaded_map(
                match stored {
                    None => None,
                    Some(v) => Some(entry_views(v@)),
                },
            ),
    {
        match stored {
            None => Ledger::new(),
            Some(v) => {
                let mut out: Vec<LedgerEntry> = Vec::new();
                let ghost src = entry_views(v@);
                let mut i: usize = 0;
                while i < v.len()
                    invariant
                        i <= v.len(),
                        src == entry_views(v@),
                        unique_recipients(entry_views(out@)),
                        award_map(entry_views(out@)) == award_map(src.take(i as int)),
                    decreases v.len() - i,
                {
                    let e = copy_entry(&v[i]);
                    let ghost before = entry_views(out@);
                    assert(src.take(i + 1).drop_last() =~= src.take(i as int));
                    assert(src.take(i + 1).last() == e@);
                    match position(&out, &e.recipient) {
                        Some(j) => {
                            proof {
                                lemma_award_map_update(before, j as int, e@);
                            }
                            out.set(j, e);
                            assert(entry_views(out@) =~= before.update(j as int, e@));
                        },
                        None => {
                            proof {
                                lemma_award_map_domain(before, e@.recipient);
                                lemma_award_map_push(before, e@);
                            }
                            out.push(e);
                            assert(entry_views(out@) =~= before.push(e@));
                        },
                    }
                    i = i + 1;
                }
                assert(src.take(v.len() as int) =~= src);
                Ledger { entries: out }
            },
        }
    }

    /// Whether `recipient` has already been paid. No side effects.
    pub fn has_paid(&self, recipient: &String) -> (r: bool)
        requires
            self.wf(),
        ensures
            r == self@.contains_key(recipient@),
    {
        proof {
            lemma_award_map_domain(entry_views(self.entries@), recipient@);
        }
        match position(&self.entries, recipient) {
            Some(j) => {
                assert(entry_views(self.entries@)[j as int].recipient == recipient@);
                true
            },
            None => {
                assert forall|i: int| 0 <= i < self.entries.len() implies entry_views(
                    self.entries@,
                )[i].recipient != recipient@ by {
                    assert(entry_views(self.entries@)[i] == self.entries@[i]@);
                }
                false
            },
        }
    }

    /// The entry of `recipient`, if paid.
    pub fn entry(&self, recipient: &String) -> (r: Option<LedgerEntry>)
        requires
            self.wf(),
        ensures
            match r {
                Some(e) => self@.contains_key(recipient@) && e@ == self@[recipient@],
                None => !self@.contains_key(recipient@),
            },
    {
        let ghost s = entry_views(self.entries@);
        proof {
            lemma_award_map_domain(s, recipient@);
        }
        match position(&self.entries, recipient) {
            Some(j) => {
                proof {
                    lemma_award_map_at(s, j as int);
                }
                Some(copy_entry(&self.entries[j]))
            },
            None => {
                assert forall|i: int| 0 <= i < s.len() implies s[i].recipient != recipient@ by {
                    assert(s[i] == self.entries@[i]@);
                }
                None
            },
        }
    }

    /// How many recipients have been paid.
    pub fn len(&self) -> (r: usize)
        requires
            self.wf(),
        ensures
            r as nat == self@.len(),
    {
        proof {
            lemma_award_map_len(entry_views(self.entries@));
        }
        self.entries.len()
    }

    /// Every entry, for writing to durable storage: loading them back gives
    /// this ledger.
    pub fn entries(&self) -> (r: Vec<LedgerEntry>)
        requires
            self.wf(),
        ensures
            unique_recipients(entry_views(r@)),
            award_map(entry_views(r@)) == self@,
    {
        let mut out: Vec<LedgerEntry> = Vec::new();
        let mut i: usize = 0;
        while i < self.entries.len()
            invariant
                i <= self.entries.len(),
                entry_views(out@) == entry_views(self.entries@).take(i as int),
            decreases self.entries.len() - i,
        {
            let ghost before = out@;
            let e = copy_entry(&self.entries[i]);
            out.push(e);
            assert(out@ == before.push(e));
            assert(entry_views(out@) =~= entry_views(before).push(e@));
            assert(entry_views(self.entries@).take(i + 1) =~= entry_views(self.entries@).take(
                i as int,
            ).push(self.entries@[i as int]@));
            i = i + 1;
        }
        assert(entry_views(self.entries@).take(i as int) =~= entry_views(self.entries@));
        out
    }

    /// Records that `recipient` was paid `amount` at `awarded_at` by the
    /// transaction `tx_reference`. A recipient already paid is refused and the
    /// ledger is left as it was.
    pub fn record_at(
        &mut self,
        recipient: String,
        amount: u128,
        tx_reference: String,
        awarded_at: i64,
    ) -> (r: Result<(), RecordError>)
        requires
            old(self).wf(),
        ensures
            final(self).wf(),
            ({
                let e = EntryView {
                    recipient: recipient@,
                    awarded_at: awarded_at as int,
                    amount: amount as nat,
                    tx_reference: tx_reference@,
                };
                match recorded(old(self)@, e) {
                    Some(m) => r is Ok && final(self)@ == m,
                    None => r == Err::<(), RecordError>(RecordError::AlreadyPaid)
                        && final(self)@ == old(self)@,
                }
            }),
    {
        if self.has_paid(&recipient) {
            return Err(RecordError::AlreadyPaid);
        }
        let e = LedgerEntry { recipient, awarded_at, amount, tx_reference };
        proof {
            lemma_award_map_push(entry_views(self.entries@), e@);
        }
        self.entries.push(e);
        assert(entry_views(self.entries@) =~= entry_views(old(self).entries@).push(e@));
        Ok(())
    }

    /// Records that `recipient` was paid `amount` by `tx_reference`, stamped
    /// with the current time. A recipient already paid is refused and the
    /// ledger is left as it was.
    pub fn record(&mut self, recipient: String, amount: u128, tx_reference: String) -> (r: Result<
        (),
        RecordError,
    >)
        requires
            old(self).wf(),
        ensures
            final(self).wf(),
            old(self)@.contains_key(recipient@) ==> r == Err::<(), RecordError>(
                RecordError::AlreadyPaid,
            ) && final(self)@ == old(self)@,
            !old(self)@.contains_key(recipient@) ==> r is Ok && final(self)@ == old(self)@.insert(
                recipient@,
                EntryView {
                    recipient: recipient@,
                    awarded_at: final(self)@[recipient@].awarded_at,
                    amount: amount as nat,
                    tx_reference: tx_reference@,
                },
            ),
    {
        let now = now_millis();
        self.record_at(recipient, amount, tx_reference, now)
    }
}

/// A recipient is paid at most once: once an award for a recipient has been
/// recorded, every later award for that recipient is refused, and recording
/// only ever adds an entry, never changing or removing one.
pub proof fn lemma_paid_at_most_once(
    m: Map<Seq<char>, EntryView>,
    first: EntryView,
    second: EntryView,
)
    requires
        first.recipient == second.recipient,
        recorded(m, first) is Some,
    ensures
        recorded(recorded(m, first).unwrap(), second) is None,
        m.submap_of(recorded(m, first).unwrap()),
        recorded(m, first).unwrap()[first.recipient] == first,
{
}

/// Right after loading, a recipient that the stored state does not name is
/// not paid; where the stored state was missing or malformed, nobody is.
pub proof fn lemma_loaded_unpaid(stored: Option<Seq<EntryView>>, recipient: Seq<char>)
    requires
        stored matches Some(s) ==> forall|i: int| 0 <= i < s.len() ==> s[i].recipient != recipient,
    ensures
        !loaded_map(stored).contains_key(recipient),
{
    if let Some(s) = stored {
        lemma_award_map_domain(s, recipient);
    }
}

/// Recording an award, writing out the ledger's entries and loading them
/// into a fresh ledger gives back the same ledger: the recipient is paid, with
/// the amount and the transaction reference that were recorded.
pub proof fn lemma_record_persist_load(
    m: Map<Seq<char>, EntryView>,
    e: EntryView,
    written: Seq<EntryView>,
)
    requires
        recorded(m, e) is Some,
        award_map(written) == recorded(m, e).unwrap(),
    ensures
        loaded_map(Some(written)) == recorded(m, e).unwrap(),
        loaded_map(Some(written)).contains_key(e.recipient),
        loaded_map(Some(written))[e.recipient].amount == e.amount,
        loaded_map(Some(written))[e.recipient].tx_reference == e.tx_reference,
{
}

proof fn lemma_award_map_len(s: Seq<EntryView>)
    requires
        unique_recipients(s),
    ensures
        award_map(s).len() == s.len(),
        award_map(s).dom().finite(),
    decreases s.len(),
{
    if s.len() > 0 {
        let t = s.drop_last();
        assert(unique_recipients(t)) by {
            assert forall|a: int, b: int|
                0 <= a < t.len() && 0 <= b < t.len() && a != b implies t[a].recipient
                != t[b].recipient by {
                assert(t[a] == s[a] && t[b] == s[b]);
            }
        }
        lemma_award_map_len(t);
        lemma_award_map_domain(t, s.last().recipient);
        if exists|i: int| 0 <= i < t.len() && t[i].recipient == s.last().recipient {
            let i = choose|i: int| 0 <= i < t.len() && t[i].recipient == s.last().recipient;
            assert(s[i] == t[i]);
        }
    }
}

} // verus!
