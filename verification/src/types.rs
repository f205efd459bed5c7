//! Data model of the pool coordination protocol.
//!
//! Every value the protocol logic reads is held here as plain data: an
//! outpoint is a transaction id (bytes) plus an output index, an amount is
//! a satoshi count, an address is its byte form.  Key derivation, address
//! encoding and chain access belong to external collaborators; this crate
//! only coordinates the values they hand in.

use vstd::prelude::*;

verus! {

/// Target network of a pool.
#[derive(Clone, Copy, PartialEq, Eq, Structural, Debug)]
pub enum Network {
    Regtest,
    Signet,
    Testnet,
    Bitcoin,
}

/// A reference to one unspent transaction output.
#[derive(Clone, Debug)]
pub struct OutPoint {
    pub txid: Vec<u8>,
    pub vout: u32,
}

/// Mathematical view of an [`OutPoint`].
#[verifier::ext_equal]
pub struct OutPointModel {
    pub txid: Seq<u8>,
    pub vout: u32,
}

impl View for OutPoint {
    type V = OutPointModel;

    open spec fn view(&self) -> OutPointModel {
        OutPointModel { txid: self.txid@, vout: self.vout }
    }
}

/// One spendable coin: an outpoint and the amount it carries, in satoshi.
#[derive(Clone, Debug)]
pub struct Coin {
    pub outpoint: OutPoint,
    pub amount: u64,
}

/// Mathematical view of a [`Coin`].
#[verifier::ext_equal]
pub struct CoinModel {
    pub outpoint: OutPointModel,
    pub amount: u64,
}

impl View for Coin {
    type V = CoinModel;

    open spec fn view(&self) -> CoinModel {
        CoinModel { outpoint: self.outpoint@, amount: self.amount }
    }
}

/// The character of one digit value, `0` to `f`.
pub open spec fn digit_char(n: u8) -> char {
    if n == 0 {
        '0'
    } else if n == 1 {
        '1'
    } else if n == 2 {
        '2'
    } else if n == 3 {
        '3'
    } else if n == 4 {
        '4'
    } else if n == 5 {
        '5'
    } else if n == 6 {
        '6'
    } else if n == 7 {
        '7'
    } else if n == 8 {
        '8'
    } else if n == 9 {
        '9'
    } else if n == 10 {
        'a'
    } else if n == 11 {
        'b'
    } else if n == 12 {
        'c'
    } else if n == 13 {
        'd'
    } else if n == 14 {
        'e'
    } else {
        'f'
    }
}

/// Lower-case hexadecimal text of a byte string, two digits per byte.
pub open spec fn hex_chars(b: Seq<u8>) -> Seq<char>
    decreases b.len(),
{
    if b.len() == 0 {
        Seq::empty()
    } else {
        seq![digit_char(b.first() / 16), digit_char(b.first() % 16)] + hex_chars(b.drop_first())
    }
}

/// Decimal text of a non-negative number, most significant digit first.
pub open spec fn dec_chars(n: int) -> Seq<char>
    recommends
        n >= 0,
    decreases n,
{
    if n < 10 {
        seq![digit_char(n as u8)]
    } else {
        dec_chars(n / 10).push(digit_char((n % 10) as u8))
    }
}

/// The text form of an outpoint: the hexadecimal transaction id, a colon,
/// and the decimal output index.
pub open spec fn outpoint_chars(o: OutPointModel) -> Seq<char> {
    hex_chars(o.txid) + seq![':'] + dec_chars(o.vout as int)
}

/// The text of one digit value.
fn digit_str(n: u8) -> (r: &'static str)
    requires
        n < 16,
    ensures
        r@ == seq![digit_char(n)],
{
    proof {
        reveal_strlit("0");
        reveal_strlit("1");
        reveal_strlit("2");
        reveal_strlit("3");
        reveal_strlit("4");
        reveal_strlit("5");
        reveal_strlit("6");
        reveal_strlit("7");
        reveal_strlit("8");
        reveal_strlit("9");
        reveal_strlit("a");
        reveal_strlit("b");
        reveal_strlit("c");
        reveal_strlit("d");
        reveal_strlit("e");
        reveal_strlit("f");
    }
    match n {
        0 => "0",
        1 => "1",
        2 => "2",
        3 => "3",
        4 => "4",
        5 => "5",
        6 => "6",
        7 => "7",
        8 => "8",
        9 => "9",
        10 => "a",
        11 => "b",
        12 => "c",
        13 => "d",
        14 => "e",
        _ => "f",
    }
}

proof fn lemma_hex_chars_push(b: Seq<u8>, x: u8)
    ensures
        hex_chars(b.push(x)) =~= hex_chars(b) + seq![digit_char(x / 16), digit_char(x % 16)],
    decreases b.len(),
{
    assert(hex_chars(b.push(x)) == seq![
        digit_char(b.push(x).first() / 16),
        digit_char(b.push(x).first() % 16),
    ] + hex_chars(b.push(x).drop_first()));
    if b.len() == 0 {
        assert(b.push(x).first() == x);
        assert(b.push(x).drop_first() =~= Seq::<u8>::empty());
        assert(hex_chars(Seq::<u8>::empty()) =~= Seq::<char>::empty());
        assert(b =~= Seq::<u8>::empty());
    } else {
        assert(b.push(x).first() == b.first());
        assert(b.push(x).drop_first() =~= b.drop_first().push(x));
        lemma_hex_chars_push(b.drop_first(), x);
        assert(hex_chars(b) == seq![digit_char(b.first() / 16), digit_char(b.first() % 16)]
            + hex_chars(b.drop_first()));
    }
}

impl Coin {
    /// The coin's amount in satoshi.
    pub fn amount_sat(&self) -> (r: u64)
        ensures
            r == self@.amount,
    {
        self.amount
    }

    /// The text form of this coin's outpoint.
    pub fn outpoint(&self) -> (r: String)
        ensures
            r@ == outpoint_chars(self@.outpoint),
    {
        let ghost txid = self.outpoint.txid@;
        let mut s = String::new();
        let n = self.outpoint.txid.len();
        let mut i: usize = 0;
        proof {
            assert(txid.take(0) =~= Seq::<u8>::empty());
            assert(s@ =~= hex_chars(txid.take(0)));
        }
        while i < n
            invariant
                0 <= i <= n,
                n == self.outpoint.txid@.len(),
                txid == self.outpoint.txid@,
                s@ == hex_chars(txid.take(i as int)),
            decreases n - i,
        {
            let b = self.outpoint.txid[i];
            s.append(digit_str(b / 16));
            s.append(digit_str(b % 16));
            proof {
                assert(txid.take(i + 1) =~= txid.take(i as int).push(txid[i as int]));
                lemma_hex_chars_push(txid.take(i as int), txid[i as int]);
                assert(s@ =~= hex_chars(txid.take(i + 1)));
            }
            i = i + 1;
        }
        proof {
            assert(txid.take(n as int) =~= txid);
        }
        s.append(":");
        proof {
            reveal_strlit(":");
            assert(s@ =~= hex_chars(txid) + seq![':']);
        }
        let ghost head = s@;
        let vout = self.outpoint.vout;
        let mut m: u32 = vout;
        let mut digits: Vec<u8> = Vec::new();
        proof {
            assert(digits@.map_values(|d: u8| digit_char(d)).reverse() =~= Seq::<char>::empty());
            assert(dec_chars(vout as int) =~= dec_chars(m as int) + digits@.map_values(
                |d: u8| digit_char(d),
            ).reverse());
        }
        while m >= 10
            invariant
                vout == self.outpoint.vout,
                forall|j: int| 0 <= j < digits@.len() ==> digits@[j] < 10,
                dec_chars(vout as int) == dec_chars(m as int) + digits@.map_values(
                    |d: u8| digit_char(d),
                ).reverse(),
            decreases m,
        {
            let ghost old_digits = digits@;
            let ghost old_m = m as int;
            let d = (m % 10) as u8;
            digits.push(d);
            m = m / 10;
            proof {
                let f = |d2: u8| digit_char(d2);
                assert(dec_chars(old_m) == dec_chars(old_m / 10).push(digit_char(
                    (old_m % 10) as u8,
                )));
                assert(digits@.map_values(f).reverse() =~= seq![digit_char(d)]
                    + old_digits.map_values(f).reverse());
                assert(dec_chars(m as int).push(digit_char(d)) + old_digits.map_values(f).reverse()
                    =~= dec_chars(m as int) + digits@.map_values(f).reverse());
            }
        }
        s.append(digit_str((m % 16) as u8));
        proof {
            assert(m < 10);
            assert((m % 16) as u8 == (m as int) as u8);
            assert(dec_chars(m as int) =~= seq![digit_char((m % 16) as u8)]);
            assert(s@ =~= head + dec_chars(m as int));
        }
        let ghost base = s@;
        let ghost dmap = digits@.map_values(|d: u8| digit_char(d));
        let total = digits.len();
        let mut k: usize = total;
        proof {
            assert(dmap.reverse().take(0) =~= Seq::<char>::empty());
            assert(s@ =~= base + dmap.reverse().take(0));
        }
        while k > 0
            invariant
                0 <= k <= total,
                total == digits@.len(),
                dmap == digits@.map_values(|d: u8| digit_char(d)),
                forall|j: int| 0 <= j < digits@.len() ==> digits@[j] < 10,
                s@ == base + dmap.reverse().take((total - k) as int),
            decreases k,
        {
            let d = digits[k - 1];
            s.append(digit_str(d));
            proof {
                assert(dmap.reverse()[(total - k) as int] == dmap[k - 1]);
                assert(dmap.reverse().take((total - k + 1) as int) =~= dmap.reverse().take(
                    (total - k) as int,
                ).push(dmap.reverse()[(total - k) as int]));
                assert(s@ =~= base + dmap.reverse().take((total - k + 1) as int));
            }
            k = k - 1;
        }
        proof {
            assert(dmap.reverse().take(total as int) =~= dmap.reverse());
            assert(s@ =~= outpoint_chars(self@.outpoint));
        }
        s
    }
}

/// Upper bound on the byte length of a well-formed destination address.
pub const MAX_ADDRESS_LEN: usize = 90;

/// A destination address in byte form, as the relay carries it.
#[derive(Clone, Debug)]
pub struct Address {
    pub bytes: Vec<u8>,
}

impl View for Address {
    type V = Seq<u8>;

    open spec fn view(&self) -> Seq<u8> {
        self.bytes@
    }
}

/// A destination address is well formed when it is non-empty and no longer
/// than [`MAX_ADDRESS_LEN`] bytes.  Full address syntax is the wallet
/// collaborator's concern; the protocol rejects only what could not be an
/// address at all.
pub open spec fn addr_wf(a: Seq<u8>) -> bool {
    0 < a.len() <= MAX_ADDRESS_LEN
}

impl Address {
    /// Builds an address from its text form; `None` when the text cannot
    /// be a well-formed address.
    pub fn from_string(value: String) -> (r: Option<Address>)
        ensures
            r is Some <==> addr_wf(value@.map_values(|c: char| c as u8)),
            r matches Some(a) ==> a@ == value@.map_values(|c: char| c as u8),
    {
        let bytes = chars_to_bytes(&value);
        if bytes.len() == 0 || bytes.len() > MAX_ADDRESS_LEN {
            None
        } else {
            Some(Address { bytes })
        }
    }

    /// Whether this address is well formed.
    pub fn is_well_formed(&self) -> (r: bool)
        ensures
            r == addr_wf(self@),
    {
        self.bytes.len() > 0 && self.bytes.len() <= MAX_ADDRESS_LEN
    }
}

/// Truncates each character of a string to a byte.  Addresses on the wire
/// are ASCII, where this is the identity on each character.
fn chars_to_bytes(s: &String) -> (r: Vec<u8>)
    ensures
        r@ == s@.map_values(|c: char| c as u8),
{
    let mut out: Vec<u8> = Vec::new();
    let n = s.unicode_len();
    let mut i: usize = 0;
    while i < n
        invariant
            0 <= i <= n,
            n == s@.len(),
            out@ == s@.take(i as int).map_values(|c: char| c as u8),
        decreases n - i,
    {
        let c = s.get_char(i);
        out.push(c as u8);
        proof {
            assert(s@.take(i + 1 as int) =~= s@.take(i as int).push(s@[i as int]));
            assert(s@.take(i + 1 as int).map_values(|c: char| c as u8) =~= s@.take(
                i as int,
            ).map_values(|c: char| c as u8).push(s@[i as int] as u8));
        }
        i = i + 1;
    }
    proof {
        assert(s@.take(n as int) =~= s@);
    }
    out
}

/// Wallet seed material, opaque to the protocol: deriving keys from it is
/// the wallet collaborator's concern.
#[derive(Clone, Debug)]
pub struct Mnemonic {
    pub phrase: String,
}

impl View for Mnemonic {
    type V = Seq<char>;

    open spec fn view(&self) -> Seq<char> {
        self.phrase@
    }
}

impl Mnemonic {
    /// Wraps seed-phrase text; `None` on empty text.  Checksum and word
    /// list validation belong to the wallet collaborator.
    pub fn from_string(value: String) -> (r: Option<Mnemonic>)
        ensures
            r is Some <==> value@.len() > 0,
            r matches Some(m) ==> m@ == value@,
    {
        if value.unicode_len() == 0 {
            None
        } else {
            Some(Mnemonic { phrase: value })
        }
    }
}

/// The fee a pool charges, as carried on the wire.  Only the fixed form is
/// active in this protocol: an advertisement with any other variant is
/// discarded at the directory's validation boundary.
#[derive(Clone, Copy, PartialEq, Eq, Structural, Debug)]
pub enum Fee {
    /// An absolute fee in satoshi, split over the peers.
    Fixed(u32),
    /// A fee rate; never accepted into a well-formed pool.
    PerVByte(u32),
}

/// What an initiator supplies to open a pool.
#[derive(Clone, Copy, Debug)]
pub struct PoolConfig {
    /// The equal value, in satoshi, every output of the pool must carry.
    pub denomination: u64,
    /// The fixed network fee of the whole transaction, in satoshi.
    pub fee: u32,
    /// Time units a session may wait before it aborts.
    pub max_duration: u64,
    /// Number of participants the pool must reach.
    pub peers: usize,
    pub network: Network,
}

impl PoolConfig {
    /// Invariant of a well-formed pool configuration.
    pub open spec fn valid(&self) -> bool {
        self.denomination > 0 && self.peers >= 2
    }

    /// Decides the configuration invariant.
    pub fn is_valid(&self) -> (r: bool)
        ensures
            r == self.valid(),
    {
        self.denomination > 0 && self.peers >= 2
    }
}

/// One participant's contribution to a pool: seed material, a chain data
/// endpoint, the coin it commits as input, the destination of its output,
/// and the relay to use.
#[derive(Clone, Debug)]
pub struct PeerConfig {
    pub mnemonics: Mnemonic,
    pub electrum_url: String,
    pub electrum_port: u16,
    /// The coin this peer commits as its input.
    pub input: Coin,
    /// The destination of this peer's equal-value output.
    pub output: Address,
    pub relay: String,
}

/// The advertised payload of a pool.
#[derive(Clone, Debug)]
pub struct PoolPayload {
    pub denomination: u64,
    pub fee: Fee,
    pub peers: usize,
    pub relays: Vec<String>,
    pub created_at: u64,
}

/// Mathematical view of a [`PoolPayload`].
#[verifier::ext_equal]
pub struct PayloadModel {
    pub denomination: u64,
    pub fee: Fee,
    pub peers: usize,
    pub relays: Seq<Seq<char>>,
    pub created_at: u64,
}

impl View for PoolPayload {
    type V = PayloadModel;

    open spec fn view(&self) -> PayloadModel {
        PayloadModel {
            denomination: self.denomination,
            fee: self.fee,
            peers: self.peers,
            relays: self.relays@.map_values(|s: String| s@),
            created_at: self.created_at,
        }
    }
}

/// A pool advertisement is accepted only if its denomination is positive,
/// it asks for at least two peers, and its fee is the fixed form.
pub open spec fn payload_valid(p: PayloadModel) -> bool {
    p.denomination > 0 && p.peers >= 2 && p.fee is Fixed
}

/// Decides [`payload_valid`].
pub fn payload_is_valid(p: &PoolPayload) -> (r: bool)
    ensures
        r == payload_valid(p@),
{
    p.denomination > 0 && p.peers >= 2 && matches!(p.fee, Fee::Fixed(_))
}

/// The observed state of one pool on a relay: its identifier and, when an
/// advertisement has been seen, its payload.
#[derive(Clone, Debug)]
pub struct Pool {
    pub id: Vec<u8>,
    pub payload: Option<PoolPayload>,
}

/// Mathematical view of a [`Pool`].
#[verifier::ext_equal]
pub struct PoolModel {
    pub id: Seq<u8>,
    pub payload: Option<PayloadModel>,
}

impl View for Pool {
    type V = PoolModel;

    open spec fn view(&self) -> PoolModel {
        PoolModel {
            id: self.id@,
            payload: match self.payload {
                Some(p) => Some(p@),
                None => None,
            },
        }
    }
}

impl Pool {
    /// The advertised denomination, in satoshi.
    pub fn denomination_sat(&self) -> (r: Option<u64>)
        ensures
            r is Some <==> self@.payload is Some,
            r matches Some(d) ==> (self@.payload matches Some(p) && d == p.denomination),
    {
        match &self.payload {
            Some(p) => Some(p.denomination),
            None => None,
        }
    }

    /// The advertised peer count target.
    pub fn peers(&self) -> (r: Option<usize>)
        ensures
            r is Some <==> self@.payload is Some,
            r matches Some(n) ==> (self@.payload matches Some(p) && n == p.peers),
    {
        match &self.payload {
            Some(p) => Some(p.peers),
            None => None,
        }
    }

    /// The advertised fixed fee, in satoshi.  A well-formed pool never
    /// carries any other fee variant, so those are left out here, as the
    /// directory's validation boundary guarantees.
    pub fn fee(&self) -> (r: Option<u32>)
        requires
            self@.payload matches Some(p) ==> p.fee is Fixed,
        ensures
            r is Some <==> self@.payload is Some,
            r matches Some(f) ==> (self@.payload matches Some(p) && p.fee == Fee::Fixed(f)),
    {
        match &self.payload {
            Some(p) => match p.fee {
                Fee::Fixed(f) => Some(f),
                Fee::PerVByte(_) => None,
            },
            None => None,
        }
    }

    /// The first advertised relay, if any.
    pub fn relay(&self) -> (r: Option<String>)
        ensures
            self@.payload is None ==> r is None,
            self@.payload matches Some(p) ==> ((r is None <==> p.relays.len() == 0) && (
            r matches Some(s) ==> s@ == p.relays[0])),
    {
        match &self.payload {
            Some(p) => {
                if p.relays.len() > 0 {
                    let s = &p.relays[0];
                    Some(s.clone())
                } else {
                    None
                }
            },
            None => None,
        }
    }
}

/// One peer's binding declaration: the input coin it will spend, the key
/// that commits it (against which its signature must verify), and the
/// destination of its equal-value output.
#[derive(Clone, Debug)]
pub struct Commitment {
    pub input: Coin,
    /// The committing key: ownership proof of `input`, supplied by the
    /// wallet collaborator.
    pub key: Vec<u8>,
    pub output: Address,
}

/// Mathematical view of a [`Commitment`].
#[verifier::ext_equal]
pub struct CommitmentModel {
    pub txid: Seq<u8>,
    pub vout: u32,
    pub amount: u64,
    pub key: Seq<u8>,
    pub address: Seq<u8>,
}

impl View for Commitment {
    type V = CommitmentModel;

    open spec fn view(&self) -> CommitmentModel {
        CommitmentModel {
            txid: self.input.outpoint.txid@,
            vout: self.input.outpoint.vout,
            amount: self.input.amount,
            key: self.key@,
            address: self.output.bytes@,
        }
    }
}

/// Protocol failures.  All failures inside a session surface as a terminal
/// `Aborted` state carrying one of these; the coordinator flattens them to
/// an error string.
#[derive(Clone, Copy, PartialEq, Eq, Structural, Debug)]
pub enum ProtocolError {
    /// The relay or chain endpoint was unreachable; retryable by the
    /// caller, never by the session itself.
    TransportError,
    /// The target pool disagrees with what the peer is prepared to offer.
    IncompatibleConfig,
    /// Peer-supplied data violated a protocol rule.
    InvalidCommitment,
    /// A payload received disagrees with the locally held configuration.
    PeerMismatch,
    /// A deadline elapsed while waiting.
    Timeout,
    /// The pool configuration violates its invariant.
    InvalidConfig,
    /// Input and output sums do not balance against the fee, exactly.
    BalanceError,
    /// An input lacks a signature at assembly.
    MissingSignature,
    /// A signature does not verify against its input's committing key and
    /// the canonical template.
    SignatureMismatch,
}

impl ProtocolError {
    /// A short description, for the coordinator's flat error strings.
    pub fn message(&self) -> (r: &'static str)
        ensures
            self is TransportError ==> r@ == "transport error"@,
            self is IncompatibleConfig ==> r@ == "incompatible config"@,
            self is InvalidCommitment ==> r@ == "invalid commitment"@,
            self is PeerMismatch ==> r@ == "peer mismatch"@,
            self is Timeout ==> r@ == "timeout"@,
            self is InvalidConfig ==> r@ == "invalid config"@,
            self is BalanceError ==> r@ == "balance error"@,
            self is MissingSignature ==> r@ == "missing signature"@,
            self is SignatureMismatch ==> r@ == "signature mismatch"@,
    {
        proof {
            reveal_strlit("transport error");
            reveal_strlit("incompatible config");
            reveal_strlit("invalid commitment");
            reveal_strlit("peer mismatch");
            reveal_strlit("timeout");
            reveal_strlit("invalid config");
            reveal_strlit("balance error");
            reveal_strlit("missing signature");
            reveal_strlit("signature mismatch");
        }
        match self {
            ProtocolError::TransportError => "transport error",
            ProtocolError::IncompatibleConfig => "incompatible config",
            ProtocolError::InvalidCommitment => "invalid commitment",
            ProtocolError::PeerMismatch => "peer mismatch",
            ProtocolError::Timeout => "timeout",
            ProtocolError::InvalidConfig => "invalid config",
            ProtocolError::BalanceError => "balance error",
            ProtocolError::MissingSignature => "missing signature",
            ProtocolError::SignatureMismatch => "signature mismatch",
        }
    }
}

} // verus!
