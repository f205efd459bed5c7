//! The per-participant pool session state machine.
//!
//! One session runs from advertisement or discovery through commitment
//! and signature collection to final assembly.  The relay and the wallet
//! are driven from unverified glue: the glue performs the waiting and the
//! publishing, and hands every received event to the session, which makes
//! every protocol decision here.
//!
//! States move `Created -> Open -> Filling -> AwaitingSignatures ->
//! Finalized`, with `Aborted` terminal and reachable from every
//! non-terminal state.

use vstd::prelude::*;
use crate::builder::{
    all_inputs_signed, balance_ok, build_template, canon_inputs, canon_outputs, clone_signature,
    commitment_views, derive_inputs, derive_outputs, has_valid_sig, inputs_of_model,
    outputs_of_model, sig_verifies, sig_views, signed_tx_wf, template_model, InputModel,
    InputSignature, OutputModel, SigModel, SignedTransaction, TemplateModel, UnsignedTransaction,
};
use crate::order::bytes_eq;
use crate::types::{
    addr_wf, payload_valid, Commitment, CommitmentModel, Fee, PeerConfig, Pool, PoolConfig,
    PoolPayload, ProtocolError,
};

verus! {

/// The states of a pool session.
#[derive(Clone, Copy, PartialEq, Eq, Structural, Debug)]
pub enum SessionState {
    /// The local configuration is validated; no network activity yet.
    Created,
    /// Advertised (or joined); collecting peer commitments.
    Open,
    /// The commitment set is complete and frozen; the template is due.
    Filling,
    /// The template is built; collecting peer signatures.
    AwaitingSignatures,
    /// Every signature verified; the transaction is assembled.
    Finalized,
    /// Terminal failure, with its reason.
    Aborted(ProtocolError),
}

/// What a session answers to one commitment message.
#[derive(Clone, Copy, PartialEq, Eq, Structural, Debug)]
pub enum CommitOutcome {
    /// Accepted; the pool still waits for more peers.
    Accepted,
    /// Accepted, and the pool reached its peer target.
    Filled,
    /// Rejected; the session is unchanged.
    Rejected(RejectReason),
}

/// Why a commitment message was rejected.
#[derive(Clone, Copy, PartialEq, Eq, Structural, Debug)]
pub enum RejectReason {
    /// The session is not collecting commitments.
    SessionNotOpen,
    /// The input does not cover denomination plus fee share.
    InsufficientAmount,
    /// The output address is malformed.
    MalformedAddress,
    /// The input outpoint is already committed; the first commitment
    /// remains authoritative.
    DoubleCommit,
}

/// What a session answers to one signature message.
#[derive(Clone, Copy, PartialEq, Eq, Structural, Debug)]
pub enum SigOutcome {
    /// Accepted; more signatures are still due.
    Accepted,
    /// Accepted, and it was the last one: the session is finalized.
    Complete,
    /// Rejected; the session is unchanged.
    Rejected,
}

/// Each peer owes an equal share of the fixed fee, rounded up so that the
/// shares always cover the whole fee.
pub open spec fn fee_share(fee: u32, peers: usize) -> int
    recommends
        peers > 0,
{
    ((fee as int) + (peers as int) - 1) / (peers as int)
}

/// Computes [`fee_share`] without overflow.
pub fn fee_share_exec(fee: u32, peers: usize) -> (r: u128)
    requires
        peers > 0,
    ensures
        r as int == fee_share(fee, peers),
{
    ((fee as u128) + (peers as u128) - 1) / (peers as u128)
}

/// Some commitment in the set already spends this outpoint.
pub open spec fn has_outpoint(s: Seq<CommitmentModel>, txid: Seq<u8>, vout: u32) -> bool {
    exists|i: int| 0 <= i < s.len() && (#[trigger] s[i]).txid == txid && s[i].vout == vout
}

/// The rule for accepting one commitment into a pool: the input covers
/// denomination plus fee share, the output address is well formed, and the
/// outpoint is not already committed.
pub open spec fn commit_acceptable(
    cfg: PoolConfig,
    existing: Seq<CommitmentModel>,
    c: CommitmentModel,
) -> bool {
    &&& c.amount as int >= cfg.denomination + fee_share(cfg.fee, cfg.peers)
    &&& addr_wf(c.address)
    &&& !has_outpoint(existing, c.txid, c.vout)
}

/// Whether the target pool agrees with what the joining peer is prepared
/// to offer: same denomination, same fixed fee, same peer target, a valid
/// payload, a well-formed output address, and an input that covers the
/// peer's share.
pub open spec fn join_compatible(
    pool: crate::types::PoolModel,
    offer: PoolConfig,
    peer_amount: u64,
    peer_addr: Seq<u8>,
) -> bool {
    &&& pool.payload matches Some(p) && payload_valid(p) && p.denomination == offer.denomination
        && p.fee == Fee::Fixed(offer.fee) && p.peers == offer.peers
    &&& addr_wf(peer_addr)
    &&& peer_amount as int >= offer.denomination + fee_share(offer.fee, offer.peers)
}

/// Every signature slot is filled.
pub open spec fn all_slots_filled(slots: Seq<Option<InputSignature>>) -> bool {
    forall|i: int| 0 <= i < slots.len() ==> (#[trigger] slots[i]) is Some
}

/// A slot is either empty or holds a signature that claims its input and
/// verifies against the template.
pub open spec fn slot_claims(slot: Option<InputSignature>, t: TemplateModel, i: int) -> bool {
    slot matches Some(s) ==> s@.input_index as int == i && sig_verifies(s@, t.inputs[i], t)
}

/// The rule for accepting one signature message: it names an input whose
/// slot is still empty and verifies against that input's committing key
/// and the canonical template bytes.
pub open spec fn sig_acceptable(
    t: TemplateModel,
    slots: Seq<Option<InputSignature>>,
    s: SigModel,
) -> bool {
    &&& (s.input_index as int) < slots.len()
    &&& slots[s.input_index as int] is None
    &&& sig_verifies(s, t.inputs[s.input_index as int], t)
}

/// One participant's session for one pool.
pub struct Session {
    pub config: PoolConfig,
    /// The time at which the session aborts if still waiting.
    pub deadline: u64,
    pub state: SessionState,
    /// Accepted commitments, in arrival order; outpoints are distinct and
    /// the first commitment of an outpoint stays authoritative.
    pub commitments: Vec<Commitment>,
    /// The canonical template, from `AwaitingSignatures` on.
    pub template: Option<UnsignedTransaction>,
    /// One slot per input of the template, filled as signatures verify.
    pub signatures: Vec<Option<InputSignature>>,
    /// The assembled transaction, once finalized.
    pub finished: Option<SignedTransaction>,
}

impl Session {
    /// The views of the accepted commitments.
    pub open spec fn cviews(&self) -> Seq<CommitmentModel> {
        commitment_views(self.commitments@)
    }

    /// The template this session's commitment set determines.
    pub open spec fn session_template(&self) -> TemplateModel {
        template_model(
            inputs_of_model(self.cviews()),
            outputs_of_model(self.cviews(), self.config.denomination),
            self.config.fee,
        )
    }

    /// Every accepted commitment obeys the acceptance rule, pairwise.
    pub open spec fn commits_ok(&self) -> bool {
        &&& forall|i: int|
            0 <= i < self.cviews().len() ==> (#[trigger] self.cviews()[i]).amount as int
                >= self.config.denomination + fee_share(self.config.fee, self.config.peers)
                && addr_wf(self.cviews()[i].address)
        &&& forall|i: int, j: int|
            0 <= i < self.cviews().len() && 0 <= j < self.cviews().len() && i != j ==> !((
            #[trigger] self.cviews()[i]).txid == (#[trigger] self.cviews()[j]).txid
                && self.cviews()[i].vout == self.cviews()[j].vout)
    }

    /// This session's signature slot `i` obeys [`slot_claims`].
    pub open spec fn slot_ok(&self, t: TemplateModel, i: int) -> bool {
        slot_claims(self.signatures@[i], t, i)
    }

    /// The session invariant: established by the constructors and
    /// preserved by every transition.
    pub open spec fn wf(&self) -> bool {
        &&& self.config.valid()
        &&& self.commits_ok()
        &&& self.cviews().len() <= self.config.peers
        &&& match self.state {
            SessionState::Created => self.cviews().len() == 0 && self.template is None
                && self.signatures@.len() == 0 && self.finished is None,
            SessionState::Open => self.cviews().len() < self.config.peers && self.template is None
                && self.signatures@.len() == 0 && self.finished is None,
            SessionState::Filling => self.cviews().len() == self.config.peers
                && self.template is None && self.signatures@.len() == 0 && self.finished is None,
            SessionState::AwaitingSignatures => {
                &&& self.cviews().len() == self.config.peers
                &&& balance_ok(
                    inputs_of_model(self.cviews()),
                    outputs_of_model(self.cviews(), self.config.denomination),
                    self.config.fee,
                )
                &&& self.template matches Some(t) && t@ == self.session_template()
                &&& self.signatures@.len() == self.config.peers
                &&& forall|i: int|
                    0 <= i < self.signatures@.len() ==> self.slot_ok(self.session_template(), i)
                &&& self.finished is None
            },
            SessionState::Finalized => {
                &&& self.cviews().len() == self.config.peers
                &&& balance_ok(
                    inputs_of_model(self.cviews()),
                    outputs_of_model(self.cviews(), self.config.denomination),
                    self.config.fee,
                )
                &&& self.finished matches Some(st) && signed_tx_wf(st@) && st@.template
                    == self.session_template()
            },
            SessionState::Aborted(_) => true,
        }
    }

    /// Validates the configuration and creates a session for an initiator.
    /// Fails with `InvalidConfig` when the configuration violates its
    /// invariant or the deadline does not fit the clock.
    pub fn new(config: PoolConfig, now: u64) -> (r: Result<Session, ProtocolError>)
        ensures
            r is Ok <==> config.valid() && now + config.max_duration <= u64::MAX,
            r matches Ok(s) ==> s.wf() && s.state is Created && s.config == config && s.deadline
                == now + config.max_duration && s.cviews().len() == 0,
            r matches Err(e) ==> e == ProtocolError::InvalidConfig,
    {
        if !config.is_valid() {
            return Err(ProtocolError::InvalidConfig);
        }
        match now.checked_add(config.max_duration) {
            Some(deadline) => Ok(
                Session {
                    config,
                    deadline,
                    state: SessionState::Created,
                    commitments: Vec::new(),
                    template: None,
                    signatures: Vec::new(),
                    finished: None,
                },
            ),
            None => Err(ProtocolError::InvalidConfig),
        }
    }

    /// Opens the pool: derives the advertisement payload the initiator
    /// publishes on the relay.  The unverified glue sends it; the session
    /// moves to `Open` and waits for commitments.
    pub fn advertise(&mut self, relay: String, now: u64) -> (r: PoolPayload)
        requires
            old(self).wf(),
            old(self).state is Created,
        ensures
            final(self).wf(),
            final(self).state is Open,
            final(self).config == old(self).config,
            final(self).deadline == old(self).deadline,
            final(self).commitments@ == old(self).commitments@,
            final(self).template == old(self).template,
            final(self).signatures@ == old(self).signatures@,
            final(self).finished is None,
            r@.denomination == old(self).config.denomination,
            r@.fee == Fee::Fixed(old(self).config.fee),
            r@.peers == old(self).config.peers,
            r@.relays =~= seq![relay@],
            r@.created_at == now,
            payload_valid(r@),
    {
        self.state = SessionState::Open;
        let mut relays: Vec<String> = Vec::new();
        relays.push(relay);
        let payload = PoolPayload {
            denomination: self.config.denomination,
            fee: Fee::Fixed(self.config.fee),
            peers: self.config.peers,
            relays,
            created_at: now,
        };
        proof {
            assert(payload@.relays =~= payload.relays@.map_values(|s: String| s@));
        }
        payload
    }

    /// Joins a discovered pool.  Fails with `IncompatibleConfig`, before
    /// any network message is sent, when the pool disagrees with what the
    /// peer is prepared to offer; on success, returns the open session and
    /// the commitment message the glue publishes.  The committing key is
    /// the wallet collaborator's ownership proof for the peer's input.
    pub fn join(pool: &Pool, peer: PeerConfig, offer: PoolConfig, key: Vec<u8>, now: u64) -> (r:
        Result<(Session, Commitment), ProtocolError>)
        ensures
            r is Ok <==> join_compatible(pool@, offer, peer.input@.amount, peer.output@) && now
                + offer.max_duration <= u64::MAX,
            r matches Err(e) ==> e == ProtocolError::IncompatibleConfig,
            r matches Ok(sc) ==> sc.0.wf() && sc.0.state is Open && sc.0.config == offer
                && sc.0.deadline == now + offer.max_duration && sc.0.cviews().len() == 0 && sc.1@
                == (CommitmentModel {
                txid: peer.input@.outpoint.txid,
                vout: peer.input@.outpoint.vout,
                amount: peer.input@.amount,
                key: key@,
                address: peer.output@,
            }),
    {
        let payload = match &pool.payload {
            Some(p) => p,
            None => {
                return Err(ProtocolError::IncompatibleConfig);
            },
        };
        let fixed = match payload.fee {
            Fee::Fixed(f) => f,
            Fee::PerVByte(_) => {
                return Err(ProtocolError::IncompatibleConfig);
            },
        };
        if !(payload.denomination > 0 && payload.peers >= 2) {
            return Err(ProtocolError::IncompatibleConfig);
        }
        if payload.denomination != offer.denomination || fixed != offer.fee || payload.peers
            != offer.peers {
            return Err(ProtocolError::IncompatibleConfig);
        }
        if !peer.output.is_well_formed() {
            return Err(ProtocolError::IncompatibleConfig);
        }
        let share = fee_share_exec(offer.fee, offer.peers);
        if (peer.input.amount as u128) < (offer.denomination as u128) + share {
            return Err(ProtocolError::IncompatibleConfig);
        }
        let deadline = match now.checked_add(offer.max_duration) {
            Some(d) => d,
            None => {
                return Err(ProtocolError::IncompatibleConfig);
            },
        };
        let session = Session {
            config: offer,
            deadline,
            state: SessionState::Open,
            commitments: Vec::new(),
            template: None,
            signatures: Vec::new(),
            finished: None,
        };
        let commitment = Commitment { input: peer.input, key, output: peer.output };
        Ok((session, commitment))
    }

    /// Applies one commitment message.  Accepted only in `Open`, and only
    /// when it covers denomination plus fee share, carries a well-formed
    /// address, and does not double-commit an outpoint; the first
    /// commitment of an outpoint stays authoritative.  Reaching the peer
    /// target freezes the set and moves the session to `Filling`.
    pub fn on_commitment(&mut self, c: Commitment) -> (r: CommitOutcome)
        requires
            old(self).wf(),
        ensures
            final(self).wf(),
            final(self).config == old(self).config,
            final(self).deadline == old(self).deadline,
            !(old(self).state is Open) ==> *final(self) == *old(self) && r
                == CommitOutcome::Rejected(RejectReason::SessionNotOpen),
            old(self).state is Open && commit_acceptable(old(self).config, old(self).cviews(), c@)
                ==> final(self).commitments@ == old(self).commitments@.push(c) && (if old(
                self,
            ).cviews().len() + 1 == old(self).config.peers {
                final(self).state is Filling && r == CommitOutcome::Filled
            } else {
                final(self).state is Open && r == CommitOutcome::Accepted
            }),
            old(self).state is Open && !commit_acceptable(
                old(self).config,
                old(self).cviews(),
                c@,
            ) ==> *final(self) == *old(self) && (r matches CommitOutcome::Rejected(why) && why
                != RejectReason::SessionNotOpen),
            old(self).state is Open && (c@.amount as int) < old(self).config.denomination
                + fee_share(old(self).config.fee, old(self).config.peers) ==> r
                == CommitOutcome::Rejected(RejectReason::InsufficientAmount),
            old(self).state is Open && (c@.amount as int) >= old(self).config.denomination
                + fee_share(old(self).config.fee, old(self).config.peers) && !addr_wf(c@.address)
                ==> r == CommitOutcome::Rejected(RejectReason::MalformedAddress),
            old(self).state is Open && (c@.amount as int) >= old(self).config.denomination
                + fee_share(old(self).config.fee, old(self).config.peers) && addr_wf(c@.address)
                && has_outpoint(old(self).cviews(), c@.txid, c@.vout) ==> r
                == CommitOutcome::Rejected(RejectReason::DoubleCommit),
    {
        match self.state {
            SessionState::Open => {},
            _ => {
                return CommitOutcome::Rejected(RejectReason::SessionNotOpen);
            },
        }
        let share = fee_share_exec(self.config.fee, self.config.peers);
        if (c.input.amount as u128) < (self.config.denomination as u128) + share {
            return CommitOutcome::Rejected(RejectReason::InsufficientAmount);
        }
        if !c.output.is_well_formed() {
            return CommitOutcome::Rejected(RejectReason::MalformedAddress);
        }
        let n = self.commitments.len();
        let mut i: usize = 0;
        while i < n
            invariant
                0 <= i <= n,
                n == self.commitments@.len(),
                *self == *old(self),
                old(self).wf(),
                old(self).state is Open,
                (c@.amount as int) >= old(self).config.denomination + fee_share(
                    old(self).config.fee,
                    old(self).config.peers,
                ),
                addr_wf(c@.address),
                forall|j: int|
                    0 <= j < i ==> !((#[trigger] old(self).cviews()[j]).txid == c@.txid && old(
                    self,
                ).cviews()[j].vout == c@.vout),
            decreases n - i,
        {
            let existing = &self.commitments[i];
            if existing.input.outpoint.vout == c.input.outpoint.vout && bytes_eq(
                &existing.input.outpoint.txid,
                &c.input.outpoint.txid,
            ) {
                proof {
                    assert(old(self).cviews()[i as int].txid == c@.txid);
                }
                return CommitOutcome::Rejected(RejectReason::DoubleCommit);
            }
            i = i + 1;
        }
        proof {
            assert(!has_outpoint(old(self).cviews(), c@.txid, c@.vout));
        }
        self.commitments.push(c);
        proof {
            assert(self.cviews() =~= old(self).cviews().push(c@));
            assert forall|i2: int, j2: int|
                0 <= i2 < self.cviews().len() && 0 <= j2 < self.cviews().len() && i2 != j2
                    implies !((#[trigger] self.cviews()[i2]).txid
                == (#[trigger] self.cviews()[j2]).txid && self.cviews()[i2].vout
                == self.cviews()[j2].vout) by {
                if i2 < old(self).cviews().len() && j2 < old(self).cviews().len() {
                    assert(!(old(self).cviews()[i2].txid == old(self).cviews()[j2].txid && old(
                        self,
                    ).cviews()[i2].vout == old(self).cviews()[j2].vout));
                }
            }
        }
        if self.commitments.len() == self.config.peers {
            self.state = SessionState::Filling;
            CommitOutcome::Filled
        } else {
            CommitOutcome::Accepted
        }
    }

    /// Advances the clock.  When the deadline has elapsed and the session
    /// is not terminal, it aborts with `Timeout`; a finalized or aborted
    /// session never changes again.
    pub fn tick(&mut self, now: u64)
        requires
            old(self).wf(),
        ensures
            final(self).wf(),
            now >= old(self).deadline && !(old(self).state is Finalized) && !(old(
                self,
            ).state is Aborted) ==> final(self).state == SessionState::Aborted(
                ProtocolError::Timeout,
            ) && final(self).config == old(self).config && final(self).deadline == old(
                self,
            ).deadline && final(self).commitments@ == old(self).commitments@,
            !(now >= old(self).deadline && !(old(self).state is Finalized) && !(old(
                self,
            ).state is Aborted)) ==> *final(self) == *old(self),
    {
        if now >= self.deadline {
            match self.state {
                SessionState::Finalized => {},
                SessionState::Aborted(_) => {},
                _ => {
                    self.state = SessionState::Aborted(ProtocolError::Timeout);
                },
            }
        }
    }

    /// Cancels a non-terminal session: releases it to `Aborted` with the
    /// given reason (a transport failure, a payload that disagrees with
    /// the local configuration, an own rejected commitment).
    pub fn abort(&mut self, reason: ProtocolError)
        requires
            old(self).wf(),
            !(old(self).state is Finalized),
            !(old(self).state is Aborted),
        ensures
            final(self).wf(),
            final(self).state == SessionState::Aborted(reason),
            final(self).config == old(self).config,
            final(self).deadline == old(self).deadline,
            final(self).commitments@ == old(self).commitments@,
    {
        self.state = SessionState::Aborted(reason);
    }

    /// Freezes the commitment set and builds the canonical template.
    /// The exact balance rule is checked here, before anything is signed:
    /// a violation is fatal and aborts the session with `BalanceError`,
    /// never silently corrected.
    pub fn build(&mut self) -> (r: Result<(), ProtocolError>)
        requires
            old(self).wf(),
            old(self).state is Filling,
        ensures
            final(self).wf(),
            final(self).config == old(self).config,
            final(self).deadline == old(self).deadline,
            final(self).commitments@ == old(self).commitments@,
            balance_ok(
                inputs_of_model(old(self).cviews()),
                outputs_of_model(old(self).cviews(), old(self).config.denomination),
                old(self).config.fee,
            ) ==> r is Ok && final(self).state is AwaitingSignatures && (
            final(self).template matches Some(t) && t@ == old(self).session_template()),
            !balance_ok(
                inputs_of_model(old(self).cviews()),
                outputs_of_model(old(self).cviews(), old(self).config.denomination),
                old(self).config.fee,
            ) ==> r == Err::<(), ProtocolError>(ProtocolError::BalanceError) && final(self).state
                == SessionState::Aborted(ProtocolError::BalanceError),
    {
        let ins = derive_inputs(&self.commitments);
        let outs = derive_outputs(&self.commitments, self.config.denomination);
        match build_template(ins, outs, self.config.fee) {
            Ok(t) => {
                let peers = self.config.peers;
                let mut slots: Vec<Option<InputSignature>> = Vec::new();
                while slots.len() < peers
                    invariant
                        slots@.len() <= peers,
                        forall|j: int| 0 <= j < slots@.len() ==> (#[trigger] slots@[j]) is None,
                    decreases peers - slots@.len(),
                {
                    slots.push(None);
                }
                self.template = Some(t);
                self.signatures = slots;
                self.state = SessionState::AwaitingSignatures;
                proof {
                    assert(self.cviews() =~= old(self).cviews());
                    assert forall|i: int|
                        0 <= i < self.signatures@.len() implies self.slot_ok(
                        self.session_template(),
                        i,
                    ) by {
                        assert(self.signatures@[i] is None);
                    }
                }
                Ok(())
            },
            Err(_) => {
                self.state = SessionState::Aborted(ProtocolError::BalanceError);
                proof {
                    assert(self.cviews() =~= old(self).cviews());
                }
                Err(ProtocolError::BalanceError)
            },
        }
    }

    /// Applies one signature message.  Accepted only in
    /// `AwaitingSignatures`, only for an input whose slot is still empty,
    /// and only when it verifies against that input's committing key and
    /// the canonical template bytes; anything else leaves the session
    /// unchanged.  The last verifying signature assembles the transaction
    /// and finalizes the session.
    pub fn on_signature(&mut self, sig: InputSignature) -> (r: SigOutcome)
        requires
            old(self).wf(),
        ensures
            final(self).wf(),
            final(self).config == old(self).config,
            final(self).deadline == old(self).deadline,
            final(self).commitments@ == old(self).commitments@,
            !(old(self).state is AwaitingSignatures) ==> *final(self) == *old(self) && r
                == SigOutcome::Rejected,
            old(self).state is AwaitingSignatures && !sig_acceptable(
                old(self).session_template(),
                old(self).signatures@,
                sig@,
            ) ==> *final(self) == *old(self) && r == SigOutcome::Rejected,
            old(self).state is AwaitingSignatures && sig_acceptable(
                old(self).session_template(),
                old(self).signatures@,
                sig@,
            ) ==> final(self).signatures@ == old(self).signatures@.update(
                sig@.input_index as int,
                Some(sig),
            ) && (if all_slots_filled(final(self).signatures@) {
                final(self).state is Finalized && r == SigOutcome::Complete && (
                final(self).finished matches Some(st) && signed_tx_wf(st@) && st@.template == old(
                    self,
                ).session_template())
            } else {
                final(self).state is AwaitingSignatures && r == SigOutcome::Accepted
                    && final(self).template == old(self).template
                    && final(self).finished is None
            }),
    {
        match self.state {
            SessionState::AwaitingSignatures => {},
            _ => {
                return SigOutcome::Rejected;
            },
        }
        let ghost tm = old(self).session_template();
        proof {
            crate::builder::lemma_input_ord_total();
            let ins = inputs_of_model(old(self).cviews());
            ins.lemma_sort_by_ensures(crate::builder::input_ord());
            broadcast use vstd::seq_lib::group_to_multiset_ensures;

            assert(ins.to_multiset() == canon_inputs(ins).to_multiset());
            assert(ins.to_multiset().len() == ins.len());
            assert(canon_inputs(ins).to_multiset().len() == canon_inputs(ins).len());
            assert(canon_inputs(ins).len() == ins.len());
            assert(tm.inputs.len() == old(self).config.peers);
        }
        let idx = sig.input_index;
        if idx >= self.signatures.len() {
            return SigOutcome::Rejected;
        }
        if self.signatures[idx].is_some() {
            proof {
                assert(!sig_acceptable(tm, old(self).signatures@, sig@));
            }
            return SigOutcome::Rejected;
        }
        let ok = match &self.template {
            Some(t) => {
                let enc = t.encode();
                let key_ok = bytes_eq(&sig.key, &t.inputs[idx].key);
                let digest_ok = bytes_eq(&sig.digest, &enc);
                proof {
                    assert(t@.inputs[idx as int] == tm.inputs[idx as int]);
                    assert((key_ok && digest_ok) == sig_verifies(sig@, tm.inputs[idx as int], tm));
                }
                key_ok && digest_ok
            },
            None => vstd::pervasive::unreached(),
        };
        if !ok {
            return SigOutcome::Rejected;
        }
        let ghost gsig = sig@;
        proof {
            assert(sig_acceptable(tm, old(self).signatures@, gsig));
        }
        self.signatures.remove(idx);
        self.signatures.insert(idx, Some(sig));
        proof {
            assert(self.signatures@ =~= old(self).signatures@.update(idx as int, Some(sig)));
            assert(self.cviews() =~= old(self).cviews());
            assert(self.session_template() == tm);
            assert forall|i: int|
                0 <= i < self.signatures@.len() implies #[trigger] slot_claims(
                self.signatures@[i],
                tm,
                i,
            ) by {
                if i != idx as int {
                    assert(self.signatures@[i] == old(self).signatures@[i]);
                    assert(old(self).slot_ok(tm, i));
                }
            }
        }
        // Is every slot filled now?
        let n = self.signatures.len();
        let mut i: usize = 0;
        let mut full = true;
        while i < n
            invariant
                0 <= i <= n,
                n == self.signatures@.len(),
                full == (forall|j: int| 0 <= j < i ==> (#[trigger] self.signatures@[j]) is Some),
            decreases n - i,
        {
            if self.signatures[i].is_none() {
                full = false;
            }
            i = i + 1;
        }
        if !full {
            proof {
                assert(!all_slots_filled(self.signatures@));
            }
            return SigOutcome::Accepted;
        }
        proof {
            assert(all_slots_filled(self.signatures@));
        }
        // Last signature: assemble and finalize.
        let template = match self.template.take() {
            Some(t) => t,
            None => vstd::pervasive::unreached(),
        };
        let ghost slots_now = self.signatures@;
        let n2 = self.signatures.len();
        let mut wits: Vec<InputSignature> = Vec::new();
        let mut k: usize = 0;
        while k < n2
            invariant
                0 <= k <= n2,
                n2 == self.signatures@.len(),
                slots_now == self.signatures@,
                all_slots_filled(slots_now),
                forall|l: int| 0 <= l < n2 ==> #[trigger] slot_claims(slots_now[l], tm, l),
                wits@.len() == k,
                forall|l: int|
                    0 <= l < k ==> (#[trigger] sig_views(wits@)[l]).input_index as int == l
                        && sig_verifies(sig_views(wits@)[l], tm.inputs[l], tm),
            decreases n2 - k,
        {
            match &self.signatures[k] {
                Some(s) => {
                    let ghost old_w = wits@;
                    let w = clone_signature(s);
                    wits.push(w);
                    proof {
                        assert(sig_views(wits@) =~= sig_views(old_w).push(w@));
                        assert(slot_claims(slots_now[k as int], tm, k as int));
                        assert forall|l: int|
                            0 <= l < k + 1 implies (#[trigger] sig_views(
                            wits@,
                        )[l]).input_index as int == l && sig_verifies(
                            sig_views(wits@)[l],
                            tm.inputs[l],
                            tm,
                        ) by {
                            if l < k {
                                assert(sig_views(wits@)[l] == sig_views(old_w)[l]);
                            } else {
                                assert(sig_views(wits@)[l] == w@);
                            }
                        }
                    }
                },
                None => {
                    proof {
                        assert(slots_now[k as int] is Some);
                        assert(false);
                    }
                },
            }
            k = k + 1;
        }
        proof {
            assert(template@ == tm);
            assert forall|i2: int| 0 <= i2 < tm.inputs.len() implies has_valid_sig(
                tm,
                sig_views(wits@),
                i2,
            ) by {
                assert((sig_views(wits@)[i2]).input_index as int == i2 && sig_verifies(
                    sig_views(wits@)[i2],
                    tm.inputs[i2],
                    tm,
                ));
            }
            assert(all_inputs_signed(tm, sig_views(wits@)));
        }
        match crate::builder::assemble(template, &wits) {
            Ok(st) => {
                self.finished = Some(st);
                self.state = SessionState::Finalized;
                proof {
                    assert(self.cviews() =~= old(self).cviews());
                }
                SigOutcome::Complete
            },
            Err(_) => vstd::pervasive::unreached(),
        }
    }

    /// Law: every finalized session balances exactly: the sum of the
    /// assembled transaction's input amounts equals the sum of its output
    /// values plus the pool's fixed fee.
    pub proof fn lemma_finalized_balance(s: &Session)
        requires
            s.wf(),
            s.state is Finalized,
        ensures
            s.finished matches Some(st) && crate::builder::sum_inputs(st@.template.inputs)
                == crate::builder::sum_outputs(st@.template.outputs) + s.config.fee,
    {
        crate::builder::lemma_input_ord_total();
        crate::builder::lemma_output_ord_total();
        let ins = inputs_of_model(s.cviews());
        let outs = outputs_of_model(s.cviews(), s.config.denomination);
        ins.lemma_sort_by_ensures(crate::builder::input_ord());
        outs.lemma_sort_by_ensures(crate::builder::output_ord());
        crate::builder::lemma_seq_sum_multiset(
            canon_inputs(ins),
            ins,
            |x: InputModel| x.amount as int,
        );
        crate::builder::lemma_seq_sum_multiset(
            canon_outputs(outs),
            outs,
            |x: OutputModel| x.value as int,
        );
    }

    /// Law: a session holding fewer commitments than its peer target is
    /// never finalized (nor past the commitment phase at all); together
    /// with [`Session::tick`], an underfilled session whose deadline
    /// elapses can only end `Aborted(Timeout)`.
    pub proof fn lemma_underfilled_never_finalized(s: &Session)
        requires
            s.wf(),
            s.cviews().len() < s.config.peers,
        ensures
            !(s.state is Finalized),
            !(s.state is AwaitingSignatures),
            !(s.state is Filling),
    {
    }
}

} // verus!
