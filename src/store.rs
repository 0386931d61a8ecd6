use vstd::prelude::*;

use crate::codec::{decode_round, encode_round, fits, lemma_round_trip, parse_round, round_bytes};
use crate::error::Error;
use crate::round::{Round, RoundView};
use crate::table::{
    entries_map, keys_unique, lemma_entries_absent, lemma_entries_lookup, lemma_entries_update,
    position_of,
};

verus! {

/// What reading `id` from a store that holds `m` gives: [`Error::NotFound`]
/// when nothing is stored under it, the round its bytes stand for, or
/// [`Error::Deserialize`] when they stand for none.
pub open spec fn read_result(m: Map<Seq<char>, Seq<u8>>, id: Seq<char>) -> Result<
    RoundView,
    Error,
> {
    if !m.contains_key(id) {
        Err(Error::NotFound)
    } else {
        match parse_round(m[id]) {
            Some(r) => Ok(r),
            None => Err(Error::Deserialize),
        }
    }
}

/// Reading an identifier that was never written gives
/// [`Error::NotFound`].
pub proof fn lemma_read_never_written(m: Map<Seq<char>, Seq<u8>>, id: Seq<char>)
    requires
        !m.contains_key(id),
    ensures
        read_result(m, id) == Err::<RoundView, Error>(Error::NotFound),
{
}

/// After a round is delivered, reading its identifier gives exactly that
/// round.
pub proof fn lemma_read_after_deliver(m: Map<Seq<char>, Seq<u8>>, r: RoundView)
    requires
        fits(r),
    ensures
        read_result(m.insert(r.identifier, round_bytes(r)), r.identifier) == Ok::<
            RoundView,
            Error,
        >(r),
{
    lemma_round_trip(r);
}

/// Last write wins: after two deliveries under the same identifier, reading
/// it gives the newer round.
pub proof fn lemma_last_write_wins(m: Map<Seq<char>, Seq<u8>>, older: RoundView, newer: RoundView)
    requires
        fits(older),
        fits(newer),
        older.identifier == newer.identifier,
    ensures
        read_result(
            m.insert(older.identifier, round_bytes(older)).insert(
                newer.identifier,
                round_bytes(newer),
            ),
            newer.identifier,
        ) == Ok::<RoundView, Error>(newer),
{
    lemma_round_trip(newer);
}

/// A delivery leaves what other identifiers read unchanged.
pub proof fn lemma_deliver_keeps_others(
    m: Map<Seq<char>, Seq<u8>>,
    r: RoundView,
    other: Seq<char>,
)
    requires
        other != r.identifier,
    ensures
        read_result(m.insert(r.identifier, round_bytes(r)), other) == read_result(m, other),
{
}

/// The store sink: keeps the stored form of the latest round delivered for
/// each identifier, and reads it back on demand.
pub struct StoreSink {
    entries: Vec<(String, Vec<u8>)>,
}

impl View for StoreSink {
    type V = Map<Seq<char>, Seq<u8>>;

    closed spec fn view(&self) -> Map<Seq<char>, Seq<u8>> {
        entries_map(self.entries@)
    }
}

impl StoreSink {
    /// Each identifier is stored at most once.
    pub closed spec fn wf(&self) -> bool {
        keys_unique(self.entries@)
    }

    /// An empty store.
    pub fn new() -> (s: StoreSink)
        ensures
            s.wf(),
            s@ == Map::<Seq<char>, Seq<u8>>::empty(),
    {
        StoreSink { entries: Vec::new() }
    }

    /// Stores `round` under its identifier, replacing what was stored
    /// there.
    pub fn deliver(&mut self, round: Round)
        requires
            old(self).wf(),
        ensures
            final(self).wf(),
            final(self)@ == old(self)@.insert(round@.identifier, round_bytes(round@)),
    {
        let bytes = encode_round(&round);
        let key = round.identifier;
        match position_of(&self.entries, &key) {
            Some(i) => {
                proof {
                    lemma_entries_update(self.entries@, i as int, (key, bytes));
                }
                self.entries.set(i, (key, bytes));
            },
            None => {
                let ghost before = self.entries@;
                self.entries.push((key, bytes));
                assert(self.entries@.drop_last() =~= before);
            },
        }
    }

    /// Reads back the round stored under `identifier`.
    pub fn read(&self, identifier: &str) -> (r: Result<Round, Error>)
        requires
            self.wf(),
        ensures
            match r {
                Ok(x) => read_result(self@, identifier@) == Ok::<RoundView, Error>(x@),
                Err(e) => read_result(self@, identifier@) == Err::<RoundView, Error>(e),
            },
    {
        let key = identifier.to_owned();
        match position_of(&self.entries, &key) {
            Some(i) => {
                proof {
                    lemma_entries_lookup(self.entries@, i as int);
                }
                decode_round(&self.entries[i].1)
            },
            None => {
                proof {
                    lemma_entries_absent(self.entries@, key@);
                }
                Err(Error::NotFound)
            },
        }
    }
}

} // verus!
