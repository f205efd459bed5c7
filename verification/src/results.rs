//! Outcome envelopes of the coordinator API.
//!
//! Each coordinator call returns exactly one of a success value or an
//! error string, never both; "neither populated" is the distinguishable
//! in-progress or empty state.  The unverified glue performs the network
//! work and hands its result here to be flattened into an envelope.

use vstd::prelude::*;
use crate::builder::copy_bytes;
use crate::types::{Coin, Pool, PoolPayload};

verus! {

/// Copies a coin, field by field.
pub fn clone_coin(c: &Coin) -> (r: Coin)
    ensures
        r@ == c@,
{
    let mut txid: Vec<u8> = Vec::new();
    copy_bytes(&c.outpoint.txid, &mut txid);
    Coin {
        outpoint: crate::types::OutPoint { txid, vout: c.outpoint.vout },
        amount: c.amount,
    }
}

/// Copies a pool record, field by field.
pub fn clone_pool(p: &Pool) -> (r: Pool)
    ensures
        r@ == p@,
{
    let mut id: Vec<u8> = Vec::new();
    copy_bytes(&p.id, &mut id);
    let payload = match &p.payload {
        Some(pl) => {
            let n = pl.relays.len();
            let mut relays: Vec<String> = Vec::new();
            let mut i: usize = 0;
            while i < n
                invariant
                    0 <= i <= n,
                    n == pl.relays@.len(),
                    relays@.len() == i,
                    forall|j: int| 0 <= j < i ==> #[trigger] relays@[j] == pl.relays@[j],
                decreases n - i,
            {
                let s = &pl.relays[i];
                relays.push(s.clone());
                i = i + 1;
            }
            proof {
                assert(relays@ =~= pl.relays@);
            }
            Some(
                PoolPayload {
                    denomination: pl.denomination,
                    fee: pl.fee,
                    peers: pl.peers,
                    relays,
                    created_at: pl.created_at,
                },
            )
        },
        None => None,
    };
    let r = Pool { id, payload };
    proof {
        assert(r@ =~= p@);
    }
    r
}

/// Copies a list of coins.
pub fn clone_coins(v: &Vec<Coin>) -> (r: Vec<Coin>)
    ensures
        r@.len() == v@.len(),
        forall|i: int| 0 <= i < v@.len() ==> (#[trigger] r@[i])@ == v@[i]@,
{
    let n = v.len();
    let mut out: Vec<Coin> = Vec::new();
    let mut i: usize = 0;
    while i < n
        invariant
            0 <= i <= n,
            n == v@.len(),
            out@.len() == i,
            forall|j: int| 0 <= j < i ==> (#[trigger] out@[j])@ == v@[j]@,
        decreases n - i,
    {
        let c = clone_coin(&v[i]);
        out.push(c);
        i = i + 1;
    }
    out
}

/// Copies a list of pool records.
pub fn clone_pools(v: &Vec<Pool>) -> (r: Vec<Pool>)
    ensures
        r@.len() == v@.len(),
        forall|i: int| 0 <= i < v@.len() ==> (#[trigger] r@[i])@ == v@[i]@,
{
    let n = v.len();
    let mut out: Vec<Pool> = Vec::new();
    let mut i: usize = 0;
    while i < n
        invariant
            0 <= i <= n,
            n == v@.len(),
            out@.len() == i,
            forall|j: int| 0 <= j < i ==> (#[trigger] out@[j])@ == v@[j]@,
        decreases n - i,
    {
        let p = clone_pool(&v[i]);
        out.push(p);
        i = i + 1;
    }
    out
}

/// Outcome of listing a wallet's spendable coins.
pub struct ListCoinsResult {
    pub coins: Option<Vec<Coin>>,
    pub error: Option<String>,
}

impl ListCoinsResult {
    /// The empty, in-progress envelope: neither populated.
    pub fn new() -> (r: Self)
        ensures
            r.coins is None,
            r.error is None,
    {
        Self { coins: None, error: None }
    }

    /// Success: a value is present and no error is.
    pub fn is_ok(&self) -> (r: bool)
        ensures
            r == (self.coins is Some && self.error is None),
    {
        self.coins.is_some() && self.error.is_none()
    }

    /// Failure: no value is present and an error is.
    pub fn is_err(&self) -> (r: bool)
        ensures
            r == (self.coins is None && self.error is Some),
    {
        !self.coins.is_some() && !self.error.is_none()
    }

    /// The success value, if present.
    pub fn result(&self) -> (r: Option<Vec<Coin>>)
        ensures
            r is Some <==> self.coins is Some,
            r matches Some(v) ==> (self.coins matches Some(w) && v@.len() == w@.len() && forall|
                i: int,
            |
                0 <= i < w@.len() ==> (#[trigger] v@[i])@ == w@[i]@),
    {
        match &self.coins {
            Some(v) => Some(clone_coins(v)),
            None => None,
        }
    }

    /// The error, if present.
    pub fn error(&self) -> (r: Option<String>)
        ensures
            r == self.error,
    {
        match &self.error {
            Some(e) => Some(e.clone()),
            None => None,
        }
    }

    /// Records the success value.
    pub fn set(&mut self, value: Vec<Coin>)
        ensures
            final(self).coins matches Some(v) && v@ == value@,
            final(self).error == old(self).error,
    {
        self.coins = Some(value);
    }

    /// Records the error.
    pub fn set_error(&mut self, error: String)
        ensures
            final(self).error matches Some(e) && e@ == error@,
            final(self).coins == old(self).coins,
    {
        self.error = Some(error);
    }
}

/// Outcome of initiating or joining a coinjoin: the transaction id of the
/// finished transaction, or an error string.
pub struct CoinjoinResult {
    pub txid: Option<String>,
    pub error: Option<String>,
}

impl CoinjoinResult {
    /// The empty, in-progress envelope: neither populated.
    pub fn new() -> (r: Self)
        ensures
            r.txid is None,
            r.error is None,
    {
        Self { txid: None, error: None }
    }

    /// Success: a value is present and no error is.
    pub fn is_ok(&self) -> (r: bool)
        ensures
            r == (self.txid is Some && self.error is None),
    {
        self.txid.is_some() && self.error.is_none()
    }

    /// Failure: no value is present and an error is.
    pub fn is_err(&self) -> (r: bool)
        ensures
            r == (self.txid is None && self.error is Some),
    {
        !self.txid.is_some() && !self.error.is_none()
    }

    /// The success value, if present.
    pub fn result(&self) -> (r: Option<String>)
        ensures
            r == self.txid,
    {
        match &self.txid {
            Some(t) => Some(t.clone()),
            None => None,
        }
    }

    /// The error, if present.
    pub fn error(&self) -> (r: Option<String>)
        ensures
            r == self.error,
    {
        match &self.error {
            Some(e) => Some(e.clone()),
            None => None,
        }
    }

    /// Records the success value.
    pub fn set(&mut self, value: String)
        ensures
            final(self).txid matches Some(t) && t@ == value@,
            final(self).error == old(self).error,
    {
        self.txid = Some(value);
    }

    /// Records the error.
    pub fn set_error(&mut self, error: String)
        ensures
            final(self).error matches Some(e) && e@ == error@,
            final(self).txid == old(self).txid,
    {
        self.error = Some(error);
    }
}

/// Outcome of listing the pools visible on a relay.
pub struct ListPoolsResult {
    pub pools: Option<Vec<Pool>>,
    pub error: Option<String>,
}

impl ListPoolsResult {
    /// The empty, in-progress envelope: neither populated.
    pub fn new() -> (r: Self)
        ensures
            r.pools is None,
            r.error is None,
    {
        Self { pools: None, error: None }
    }

    /// Success: a value is present and no error is.
    pub fn is_ok(&self) -> (r: bool)
        ensures
            r == (self.pools is Some && self.error is None),
    {
        self.pools.is_some() && self.error.is_none()
    }

    /// Failure: no value is present and an error is.
    pub fn is_err(&self) -> (r: bool)
        ensures
            r == (self.pools is None && self.error is Some),
    {
        !self.pools.is_some() && !self.error.is_none()
    }

    /// The success value, if present.
    pub fn result(&self) -> (r: Option<Vec<Pool>>)
        ensures
            r is Some <==> self.pools is Some,
            r matches Some(v) ==> (self.pools matches Some(w) && v@.len() == w@.len() && forall|
                i: int,
            |
                0 <= i < w@.len() ==> (#[trigger] v@[i])@ == w@[i]@),
    {
        match &self.pools {
            Some(v) => Some(clone_pools(v)),
            None => None,
        }
    }

    /// The error, if present.
    pub fn error(&self) -> (r: Option<String>)
        ensures
            r == self.error,
    {
        match &self.error {
            Some(e) => Some(e.clone()),
            None => None,
        }
    }

    /// Records the success value.
    pub fn set(&mut self, value: Vec<Pool>)
        ensures
            final(self).pools matches Some(v) && v@ == value@,
            final(self).error == old(self).error,
    {
        self.pools = Some(value);
    }

    /// Records the error.
    pub fn set_error(&mut self, error: String)
        ensures
            final(self).error matches Some(e) && e@ == error@,
            final(self).pools == old(self).pools,
    {
        self.error = Some(error);
    }
}

/// Flattens the result of a coin listing into its envelope: exactly one
/// side populated.
pub fn list_coins_outcome(outcome: Result<Vec<Coin>, String>) -> (r: ListCoinsResult)
    ensures
        outcome matches Ok(v) ==> (r.coins matches Some(w) && w@ == v@ && r.error is None),
        outcome matches Err(e) ==> (r.error matches Some(s) && s@ == e@ && r.coins is None),
{
    let mut r = ListCoinsResult::new();
    match outcome {
        Ok(v) => r.set(v),
        Err(e) => r.set_error(e),
    }
    r
}

/// Flattens the result of a coinjoin into its envelope: exactly one side
/// populated.
pub fn coinjoin_outcome(outcome: Result<String, String>) -> (r: CoinjoinResult)
    ensures
        outcome matches Ok(t) ==> (r.txid matches Some(s) && s@ == t@ && r.error is None),
        outcome matches Err(e) ==> (r.error matches Some(s) && s@ == e@ && r.txid is None),
{
    let mut r = CoinjoinResult::new();
    match outcome {
        Ok(t) => r.set(t),
        Err(e) => r.set_error(e),
    }
    r
}

/// Flattens the result of a pool listing into its envelope: exactly one
/// side populated.
pub fn list_pools_outcome(outcome: Result<Vec<Pool>, String>) -> (r: ListPoolsResult)
    ensures
        outcome matches Ok(v) ==> (r.pools matches Some(w) && w@ == v@ && r.error is None),
        outcome matches Err(e) ==> (r.error matches Some(s) && s@ == e@ && r.pools is None),
{
    let mut r = ListPoolsResult::new();
    match outcome {
        Ok(v) => r.set(v),
        Err(e) => r.set_error(e),
    }
    r
}

} // verus!
