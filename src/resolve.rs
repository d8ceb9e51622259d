use vstd::prelude::*;
use crate::error::{kind_of, Failure, LookupError};
use crate::parse::ParsedEntry;

verus! {

/// The artwork links of a card, carried through as the service gave them.
#[derive(Clone, Debug)]
pub struct ImageUris {
    pub small: String,
    pub normal: String,
    pub large: String,
    pub png: String,
    pub art_crop: String,
    pub border_crop: String,
}

/// What the card service returns for a name.
#[derive(Clone, Debug)]
pub struct CardRecord {
    pub name: String,
    pub colors: Option<Vec<String>>,
    pub image_uris: Option<ImageUris>,
}

/// One resolved entry: the quantity and name as typed, with the service's
/// colours and artwork.
#[derive(Clone, Debug)]
pub struct OutputCard {
    pub quantity: u64,
    pub name: String,
    pub colors: Option<Vec<String>>,
    pub image_uris: Option<ImageUris>,
}

/// What to do once a lookup fails.
#[derive(Clone, Copy, Debug, PartialEq, Eq, Structural)]
pub enum Policy {
    /// Stop at the first failure; the import as a whole fails with it.
    FailFast,
    /// Record the failure and go on with the next entry.
    Continue,
}

/// The outcome of an import: the resolved cards and the failed entries, each in
/// input order.
#[derive(Clone, Debug)]
pub struct Resolved {
    pub cards: Vec<OutputCard>,
    pub failures: Vec<Failure>,
}

/// `c` is the card for the entry `(quantity, name)` given the record `rec`: the
/// typed quantity and name, the record's colours and artwork.
pub open spec fn is_card_of(c: OutputCard, e: (nat, Seq<char>), rec: CardRecord) -> bool {
    &&& c.quantity as nat == e.0
    &&& c.name@ == e.1
    &&& c.colors == rec.colors
    &&& c.image_uris == rec.image_uris
}

/// `r` is what resolving the entry `e` gives when its lookup came back as `outcome`.
pub open spec fn resolves_as(
    r: Result<OutputCard, Failure>,
    e: (nat, Seq<char>),
    outcome: Result<CardRecord, LookupError>,
) -> bool {
    match outcome {
        Ok(rec) => r is Ok && is_card_of(r->Ok_0, e, rec),
        Err(err) => r is Err && r->Err_0.kind == kind_of(err) && r->Err_0.subject@ == e.1,
    }
}

/// `r` is a result about the entry `e`: a card with its quantity and name, or a
/// failure naming it.
pub open spec fn is_about(r: Result<OutputCard, Failure>, e: (nat, Seq<char>)) -> bool {
    match r {
        Ok(c) => c.quantity as nat == e.0 && c.name@ == e.1,
        Err(f) => f.subject@ == e.1,
    }
}

/// The cards among `rs`, in order.
pub open spec fn successes(rs: Seq<Result<OutputCard, Failure>>) -> Seq<OutputCard>
    decreases rs.len(),
{
    if rs.len() == 0 {
        Seq::empty()
    } else {
        let rest = successes(rs.drop_last());
        match rs.last() {
            Ok(c) => rest.push(c),
            Err(_) => rest,
        }
    }
}

/// The failures among `rs`, in order.
pub open spec fn failures(rs: Seq<Result<OutputCard, Failure>>) -> Seq<Failure>
    decreases rs.len(),
{
    if rs.len() == 0 {
        Seq::empty()
    } else {
        let rest = failures(rs.drop_last());
        match rs.last() {
            Ok(_) => rest,
            Err(f) => rest.push(f),
        }
    }
}

/// Resolves one entry from the outcome of its lookup. The card keeps the name
/// as typed, not the service's canonical name.
pub fn resolve_entry(entry: ParsedEntry, outcome: Result<CardRecord, LookupError>) -> (r: Result<
    OutputCard,
    Failure,
>)
    ensures
        resolves_as(r, entry@, outcome),
{
    match outcome {
        Ok(rec) => Ok(
            OutputCard {
                quantity: entry.quantity,
                name: entry.name,
                colors: rec.colors,
                image_uris: rec.image_uris,
            },
        ),
        Err(err) => Err(Failure { kind: err.failure_kind(), subject: entry.name }),
    }
}

/// An import in progress: the entries to resolve, one lookup at a time, and the
/// result of each lookup so far. The caller asks `next_lookup` for the name to
/// look up, performs the lookup, and hands its outcome to `record`, until
/// `next_lookup` says there is nothing left; `finish` then gives the result.
pub struct Resolution {
    pub entries: Vec<ParsedEntry>,
    pub policy: Policy,
    pub results: Vec<Result<OutputCard, Failure>>,
}

impl Resolution {
    /// The results so far are about the first entries, one each and in order,
    /// and under `FailFast` only the last of them may be a failure.
    pub open spec fn wf(&self) -> bool {
        &&& self.results.len() <= self.entries.len()
        &&& forall|i: int|
            0 <= i < self.results.len() ==> is_about(
                #[trigger] self.results[i],
                self.entries[i]@,
            )
        &&& self.policy == Policy::FailFast ==> forall|i: int|
            0 <= i < self.results.len() - 1 ==> #[trigger] self.results[i] is Ok
    }

    /// A failure has stopped the import.
    pub open spec fn halted(&self) -> bool {
        &&& self.policy == Policy::FailFast
        &&& self.results.len() > 0
        &&& self.results@.last() is Err
    }

    /// An entry is still waiting for its lookup.
    pub open spec fn pending(&self) -> bool {
        self.results.len() < self.entries.len() && !self.halted()
    }

    pub fn new(entries: Vec<ParsedEntry>, policy: Policy) -> (r: Resolution)
        ensures
            r.wf(),
            r.entries@ == entries@,
            r.policy == policy,
            r.results@.len() == 0,
    {
        Resolution { entries, policy, results: Vec::new() }
    }

    /// The name to look up next, or `None` when the import is complete.
    pub fn next_lookup(&self) -> (r: Option<&str>)
        requires
            self.wf(),
        ensures
            r is None <==> !self.pending(),
            r is Some ==> r->0@ == self.entries[self.results.len() as int].name@,
    {
        let k = self.results.len();
        if k == self.entries.len() {
            return None;
        }
        if self.policy == Policy::FailFast && k > 0 && self.results[k - 1].is_err() {
            return None;
        }
        Some(self.entries[k].name.as_str())
    }

    /// Records the outcome of the lookup of the pending entry.
    pub fn record(&mut self, outcome: Result<CardRecord, LookupError>)
        requires
            old(self).wf(),
            old(self).pending(),
        ensures
            final(self).wf(),
            final(self).entries == old(self).entries,
            final(self).policy == old(self).policy,
            final(self).results@.len() == old(self).results@.len() + 1,
            final(self).results@.drop_last() == old(self).results@,
            resolves_as(
                final(self).results@.last(),
                old(self).entries[old(self).results.len() as int]@,
                outcome,
            ),
    {
        let k = self.results.len();
        let entry = self.entries[k].duplicate();
        let r = resolve_entry(entry, outcome);
        self.results.push(r);
        assert(self.results@.drop_last() =~= old(self).results@);
        assert forall|i: int| 0 <= i < self.results.len() implies is_about(
            #[trigger] self.results[i],
            self.entries[i]@,
        ) by {
            if i < k {
                assert(self.results[i] == old(self).results[i]);
            }
        }
    }

    /// The result of a complete import. Under `FailFast` the import fails with
    /// the failure that stopped it; otherwise it gives the cards and the
    /// failures, each in input order.
    pub fn finish(self) -> (r: Result<Resolved, Failure>)
        requires
            self.wf(),
            !self.pending(),
        ensures
            failures(self.results@).len() == 0 ==> self.results.len() == self.entries.len(),
            self.policy == Policy::FailFast && failures(self.results@).len() > 0 ==> r == Err::<
                Resolved,
                Failure,
            >(failures(self.results@)[0]),
            self.policy == Policy::FailFast && failures(self.results@).len() == 0 ==> r is Ok
                && r->Ok_0.cards@ == successes(self.results@) && r->Ok_0.failures@.len() == 0,
            self.policy == Policy::Continue ==> r is Ok && r->Ok_0.cards@ == successes(
                self.results@,
            ) && r->Ok_0.failures@ == failures(self.results@),
    {
        let ghost results = self.results@;
        let policy = self.policy;
        let mut cards: Vec<OutputCard> = Vec::new();
        let mut failed: Vec<Failure> = Vec::new();
        for r in it: self.results.into_iter()
            invariant
                it.seq() == results,
                cards@ == successes(results.take(it.index() as int)),
                failed@ == failures(results.take(it.index() as int)),
        {
            let ghost i = it.index();
            assert(results.take(i + 1).drop_last() =~= results.take(i as int));
            match r {
                Ok(c) => cards.push(c),
                Err(f) => failed.push(f),
            }
        }
        assert(results.take(results.len() as int) =~= results);
        proof {
            if failures(results).len() == 0 && self.results.len() > 0 {
                lemma_no_failure_last(results);
            }
        }
        if policy == Policy::FailFast && failed.len() > 0 {
            Err(failed.remove(0))
        } else if policy == Policy::FailFast {
            Ok(Resolved { cards, failures: Vec::new() })
        } else {
            Ok(Resolved { cards, failures: failed })
        }
    }
}

proof fn lemma_no_failure_last(rs: Seq<Result<OutputCard, Failure>>)
    requires
        rs.len() > 0,
        failures(rs).len() == 0,
    ensures
        rs.last() is Ok,
{
}

proof fn lemma_all_successes(rs: Seq<Result<OutputCard, Failure>>)
    requires
        failures(rs).len() == 0,
    ensures
        successes(rs).len() == rs.len(),
        forall|i: int| 0 <= i < rs.len() ==> #[trigger] rs[i] == Ok::<OutputCard, Failure>(successes(rs)[i]),
    decreases rs.len(),
{
    if rs.len() > 0 {
        lemma_all_successes(rs.drop_last());
        assert forall|i: int| 0 <= i < rs.len() implies #[trigger] rs[i] == Ok::<OutputCard, Failure>(successes(rs)[i]) by {
            if i < rs.len() - 1 {
                assert(rs[i] == rs.drop_last()[i]);
            }
        }
    }
}

/// Input order is kept: when no lookup failed, the import has one card per
/// entry, and the card at each position has the quantity and name of the entry
/// at that position.
pub proof fn lemma_cards_follow_entries(res: Resolution)
    requires
        res.wf(),
        !res.pending(),
        failures(res.results@).len() == 0,
    ensures
        successes(res.results@).len() == res.entries.len(),
        forall|i: int|
            0 <= i < res.entries.len() ==> (#[trigger] successes(res.results@)[i]).quantity
                == res.entries[i].quantity && successes(res.results@)[i].name@
                == res.entries[i].name@,
{
    lemma_all_successes(res.results@);
    if res.results.len() > 0 {
        lemma_no_failure_last(res.results@);
    }
    assert forall|i: int| 0 <= i < res.entries.len() implies (#[trigger] successes(
        res.results@,
    )[i]).quantity == res.entries[i].quantity && successes(res.results@)[i].name@
        == res.entries[i].name@ by {
        assert(is_about(res.results[i], res.entries[i]@));
    }
}

/// Resolving a card again, by its own quantity and name and against the same
/// record, gives back the same card: the name is kept as typed, so it is stable
/// under the round trip.
pub proof fn lemma_resolve_again(
    e: (nat, Seq<char>),
    rec: CardRecord,
    first: OutputCard,
    again: OutputCard,
)
    requires
        is_card_of(first, e, rec),
        is_card_of(again, (first.quantity as nat, first.name@), rec),
    ensures
        again.quantity == first.quantity,
        again.name@ == first.name@ && first.name@ == e.1,
        again.colors == first.colors,
        again.image_uris == first.image_uris,
{
}

} // verus!
