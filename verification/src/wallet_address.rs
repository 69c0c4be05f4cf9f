//! Checksummed wallet address.
//!
//! This module holds the wallet address format: a fixed-length byte array
//! whose first byte is a reserved tag byte, rendered as text by appending a
//! two-byte XOR-chain checksum, base-58 encoding the whole buffer and
//! prepending the literal tag `"fr"`; parsing strictly verifies the tag, the
//! encoding, the reserved byte and the checksum.

use vstd::prelude::*;

use rust_base58::base58::FromBase58Error;
use rust_base58::{FromBase58, ToBase58};
use vstd::string::StringSliceAdditionalSpecFns;

verus! {

/// The wallet address size.
///
/// This is the length, in bytes, of a wallet address. An address stored as a
/// bare byte array carries no checksum, so it should never be used as an
/// input or output mechanism, only as the internal representation.
pub const WALLET_ADDRESS_LEN: usize = 7;

/// What the base-58 rendering of a byte string is. The encoding depends on
/// the bytes alone; [`base58_encode`] names its result and
/// [`base58_decode`] inverts it.
pub uninterp spec fn base58_of(bytes: Seq<u8>) -> Seq<char>;

/// Is `c` a character of the base-58 alphabet (digits, upper and lower case
/// letters, minus the visually ambiguous zero, upper o, upper i and lower
/// L)?
pub open spec fn is_base58_char(c: char) -> bool {
    ||| 49 <= c as int <= 57
    ||| (65 <= c as int <= 90 && c as int != 73 && c as int != 79)
    ||| (97 <= c as int <= 122 && c as int != 108)
}

/// Relies on rust_base58's `ToBase58` for `[u8]`: the rendering is a
/// function of the bytes alone.
#[verifier::external_body]
fn base58_encode(bytes: &[u8]) -> (r: String)
    ensures
        r@ == base58_of(bytes@),
{
    bytes.to_base58()
}

/// Relies on rust_base58's `FromBase58` for `str`: decoding succeeds exactly
/// when every character is in the base-58 alphabet (so in particular on
/// every rendering the encoder produces), inverts the encoding on its image,
/// and on failure reports an offending byte and its position in the UTF-8
/// form of the input.
#[verifier::external_body]
fn base58_decode(s: &str) -> (r: Result<Vec<u8>, (u8, usize)>)
    ensures
        r matches Ok(v) ==> s@ == base58_of(v@),
        r matches Ok(v) ==> (forall|b: Seq<u8>| base58_of(b) == s@ ==> v@ == b),
        r is Ok <==> (forall|i: int| 0 <= i < s@.len() ==> is_base58_char(#[trigger] s@[i])),
        forall|b: Seq<u8>| s@ == base58_of(b) ==> r is Ok,
        r matches Err(e) ==> e.1 < s.spec_bytes().len() && s.spec_bytes()[e.1 as int] == e.0,
{
    match s.from_base58() {
        Ok(v) => Ok(v),
        Err(FromBase58Error::InvalidBase58Byte(b, i)) => Err((b, i)),
    }
}

/// The two-byte XOR-chain checksum of a byte string: for each byte in
/// order, the first accumulator takes the byte by XOR, and the second takes
/// the first.
pub open spec fn spec_checksum(bytes: Seq<u8>) -> (u8, u8)
    decreases bytes.len(),
{
    if bytes.len() == 0 {
        (0u8, 0u8)
    } else {
        let prev = spec_checksum(bytes.drop_last());
        let c0 = prev.0 ^ bytes.last();
        (c0, prev.1 ^ c0)
    }
}

/// The text rendering of an address with raw bytes `addr`: the literal tag
/// `"fr"`, then the base-58 encoding of the bytes followed by their
/// checksum.
pub open spec fn spec_address_text(addr: Seq<u8>) -> Seq<char> {
    seq!['f', 'r'] + base58_of(addr.push(spec_checksum(addr).0).push(spec_checksum(addr).1))
}

/// Computes the XOR-chain checksum of `data[..upto]`.
fn compute_checksum(data: &[u8], upto: usize) -> (c: (u8, u8))
    requires
        upto <= data@.len(),
    ensures
        c == spec_checksum(data@.subrange(0, upto as int)),
{
    let mut c0: u8 = 0;
    let mut c1: u8 = 0;
    let mut i: usize = 0;
    proof {
        assert(data@.subrange(0, 0) =~= Seq::<u8>::empty());
    }
    while i < upto
        invariant
            0 <= i <= upto <= data@.len(),
            (c0, c1) == spec_checksum(data@.subrange(0, i as int)),
        decreases upto - i,
    {
        proof {
            assert(data@.subrange(0, i as int + 1) =~= data@.subrange(0, i as int).push(
                data@[i as int],
            ));
            assert(data@.subrange(0, i as int + 1).drop_last() =~= data@.subrange(0, i as int));
        }
        c0 = c0 ^ data[i];
        c1 = c1 ^ c0;
        i += 1;
    }
    (c0, c1)
}

/// The reason an address string was rejected.
#[derive(Copy, Clone, PartialEq, Eq, Structural, Debug)]
pub enum WalletAddressParseErrorKind {
    /// The text does not start with the literal tag.
    MissingTag,
    /// A character outside the base-58 alphabet: the offending byte and its
    /// position in the text's UTF-8 form (counted from the start of the
    /// text, tag included).
    InvalidEncoding { byte: u8, position: usize },
    /// The decoded buffer is too short or does not start with the reserved
    /// tag byte.
    WrongTagByte,
    /// The checksum bytes do not match the address bytes.
    ChecksumMismatch,
}

/// Wallet address parsing error.
///
/// Explains the exact error that led to the parsing failure. It can be used
/// to check the validity of wallet address strings.
#[derive(Copy, Clone, PartialEq, Eq, Structural, Debug)]
pub struct WalletAddressParseError {
    /// The reason the input was rejected.
    pub kind: WalletAddressParseErrorKind,
}

impl WalletAddressParseError {
    /// Wraps a rejection reason as a parse error.
    pub fn new(kind: WalletAddressParseErrorKind) -> (r: WalletAddressParseError)
        ensures
            r.kind == kind,
    {
        WalletAddressParseError { kind }
    }

    /// A human-readable description of the error.
    pub fn describe(&self) -> (r: String)
        ensures
            self.kind is MissingTag ==> r@ == "the address does not start with \"fr\""@,
            self.kind is InvalidEncoding ==> r@
                == "the address is not a valid base-58 encoded string"@,
            self.kind is WrongTagByte ==> r@
                == "the address is too short or its first byte is not the reserved tag byte"@,
            self.kind is ChecksumMismatch ==> r@ == "checksum fail"@,
    {
        match self.kind {
            WalletAddressParseErrorKind::MissingTag => String::from_str(
                "the address does not start with \"fr\"",
            ),
            WalletAddressParseErrorKind::InvalidEncoding { .. } => String::from_str(
                "the address is not a valid base-58 encoded string",
            ),
            WalletAddressParseErrorKind::WrongTagByte => String::from_str(
                "the address is too short or its first byte is not the reserved tag byte",
            ),
            WalletAddressParseErrorKind::ChecksumMismatch => String::from_str("checksum fail"),
        }
    }
}

/// The object representation of a wallet address.
///
/// A wallet address holds exactly [`WALLET_ADDRESS_LEN`] raw bytes, the
/// first of which is always the reserved tag byte zero. Addresses that come
/// from user input are parsed by [`WalletAddress::from_str`], which verifies
/// the tag, the base-58 encoding and the checksum; [`WalletAddress::from_data`]
/// is the trusted path for raw bytes that are already known to be correct.
#[derive(Copy, Clone, PartialEq, Eq, Debug)]
pub struct WalletAddress {
    address: [u8; WALLET_ADDRESS_LEN],
}

impl View for WalletAddress {
    type V = Seq<u8>;

    closed spec fn view(&self) -> Seq<u8> {
        self.address@
    }
}

impl WalletAddress {
    /// A wallet address is well formed when it has exactly
    /// [`WALLET_ADDRESS_LEN`] bytes and starts with the reserved tag byte.
    pub open spec fn wf(&self) -> bool {
        self@.len() == WALLET_ADDRESS_LEN && self@[0] == 0
    }

    /// Creates a new wallet address from raw data.
    ///
    /// This is the trusted construction path: the caller must ensure that
    /// the first byte is the reserved tag byte zero. Handing in anything
    /// else is a programming error, not a recoverable condition, so the
    /// contract rules it out; external input must go through
    /// [`WalletAddress::from_str`] instead.
    pub fn from_data(addr: [u8; WALLET_ADDRESS_LEN]) -> (r: WalletAddress)
        requires
            addr@[0] == 0,
        ensures
            r@ == addr@,
            r.wf(),
    {
        WalletAddress { address: addr }
    }

    /// Returns the wallet address bytes.
    ///
    /// This can be useful to store the bytes where space matters or fast
    /// search is required. It carries no checksum nor any other verification
    /// mechanism, so it must never serve as an input or output format.
    pub fn get_raw(&self) -> (r: &[u8])
        ensures
            r@ == self@,
    {
        self.address.as_slice()
    }

    /// Renders the address as text: the literal tag `"fr"`, then the base-58
    /// encoding of the raw bytes followed by their two checksum bytes.
    pub fn to_text(&self) -> (r: String)
        ensures
            r@ == spec_address_text(self@),
    {
        let mut buf: Vec<u8> = Vec::new();
        let mut i: usize = 0;
        while i < WALLET_ADDRESS_LEN
            invariant
                0 <= i <= WALLET_ADDRESS_LEN,
                buf@ == self@.subrange(0, i as int),
            decreases WALLET_ADDRESS_LEN - i,
        {
            buf.push(self.address[i]);
            proof {
                assert(buf@ =~= self@.subrange(0, i as int + 1));
            }
            i += 1;
        }
        proof {
            assert(buf@ =~= self@);
        }
        let c = compute_checksum(buf.as_slice(), WALLET_ADDRESS_LEN);
        proof {
            assert(buf@.subrange(0, WALLET_ADDRESS_LEN as int) =~= self@);
        }
        buf.push(c.0);
        buf.push(c.1);
        let encoded = base58_encode(buf.as_slice());
        proof {
            reveal_strlit("fr");
        }
        let mut out = String::from_str("fr");
        out.append(encoded.as_str());
        proof {
            assert(out@ =~= spec_address_text(self@));
        }
        out
    }

    /// Validates a decoded buffer and takes the address out of it: the
    /// buffer must hold at least the address and its two checksum bytes,
    /// start with the reserved tag byte, and carry the checksum of its
    /// address bytes. Every acceptance and every rejection reason is exact.
    pub fn from_decoded(bytes: &Vec<u8>) -> (r: Result<WalletAddress, WalletAddressParseError>)
        ensures
            r is Ok <==> {
                &&& bytes@.len() >= WALLET_ADDRESS_LEN + 2
                &&& bytes@[0] == 0
                &&& bytes@[WALLET_ADDRESS_LEN as int] == spec_checksum(
                    bytes@.subrange(0, WALLET_ADDRESS_LEN as int),
                ).0
                &&& bytes@[WALLET_ADDRESS_LEN as int + 1] == spec_checksum(
                    bytes@.subrange(0, WALLET_ADDRESS_LEN as int),
                ).1
            },
            r matches Ok(w) ==> w@ == bytes@.subrange(0, WALLET_ADDRESS_LEN as int) && w.wf(),
            r matches Err(e) ==> e.kind == (if bytes@.len() < WALLET_ADDRESS_LEN + 2 || bytes@[0]
                != 0 {
                WalletAddressParseErrorKind::WrongTagByte
            } else {
                WalletAddressParseErrorKind::ChecksumMismatch
            }),
    {
        if bytes.len() < WALLET_ADDRESS_LEN + 2 {
            return Err(WalletAddressParseError::new(WalletAddressParseErrorKind::WrongTagByte));
        }
        if bytes[0] != 0 {
            return Err(WalletAddressParseError::new(WalletAddressParseErrorKind::WrongTagByte));
        }
        let c = compute_checksum(bytes.as_slice(), WALLET_ADDRESS_LEN);
        if c.0 != bytes[WALLET_ADDRESS_LEN] || c.1 != bytes[WALLET_ADDRESS_LEN + 1] {
            return Err(
                WalletAddressParseError::new(WalletAddressParseErrorKind::ChecksumMismatch),
            );
        }
        let address: [u8; WALLET_ADDRESS_LEN] = [
            0u8,
            bytes[1],
            bytes[2],
            bytes[3],
            bytes[4],
            bytes[5],
            bytes[6],
        ];
        proof {
            assert(address@ =~= bytes@.subrange(0, WALLET_ADDRESS_LEN as int));
        }
        Ok(WalletAddress::from_data(address))
    }

    /// Round-trip law: the text rendering of any well-formed address is the
    /// tag followed by the encoding of a buffer that passes every check of
    /// [`WalletAddress::from_str`] — its length, its reserved tag byte and
    /// its checksum — and whose address bytes are the address itself. With
    /// the last clause of [`WalletAddress::from_str`] this gives
    /// `from_str(to_text(w)) == Ok(w)` for every well-formed `w`.
    pub proof fn lemma_text_round_trip(w: WalletAddress)
        requires
            w.wf(),
        ensures
            exists|b: Seq<u8>|
                {
                    &&& spec_address_text(w@) == seq!['f', 'r'] + base58_of(b)
                    &&& b.len() == WALLET_ADDRESS_LEN + 2
                    &&& b[0] == 0
                    &&& b[WALLET_ADDRESS_LEN as int] == spec_checksum(
                        b.subrange(0, WALLET_ADDRESS_LEN as int),
                    ).0
                    &&& b[WALLET_ADDRESS_LEN as int + 1] == spec_checksum(
                        b.subrange(0, WALLET_ADDRESS_LEN as int),
                    ).1
                    &&& b.subrange(0, WALLET_ADDRESS_LEN as int) == w@
                },
    {
        let b = w@.push(spec_checksum(w@).0).push(spec_checksum(w@).1);
        assert(spec_address_text(w@) == seq!['f', 'r'] + base58_of(b));
        assert(b.subrange(0, WALLET_ADDRESS_LEN as int) =~= w@);
        assert(b[WALLET_ADDRESS_LEN as int] == spec_checksum(w@).0);
        assert(b[WALLET_ADDRESS_LEN as int + 1] == spec_checksum(w@).1);
        assert({
            &&& spec_address_text(w@) == seq!['f', 'r'] + base58_of(b)
            &&& b.len() == WALLET_ADDRESS_LEN + 2
            &&& b[0] == 0
            &&& b[WALLET_ADDRESS_LEN as int] == spec_checksum(
                b.subrange(0, WALLET_ADDRESS_LEN as int),
            ).0
            &&& b[WALLET_ADDRESS_LEN as int + 1] == spec_checksum(
                b.subrange(0, WALLET_ADDRESS_LEN as int),
            ).1
            &&& b.subrange(0, WALLET_ADDRESS_LEN as int) == w@
        });
    }

    /// Parses an address from its text form: the text must start with the
    /// literal tag `"fr"`, the rest must be valid base-58, and the decoded
    /// buffer must pass [`WalletAddress::from_decoded`].
    ///
    /// The contract states each rejection exactly where the text alone
    /// decides it, justifies the others by the decoded buffer, and pins the
    /// rendering of every well-formed address back to its bytes, which is
    /// the round-trip law.
    pub fn from_str(s: &str) -> (r: Result<WalletAddress, WalletAddressParseError>)
        ensures
            (!(s@.len() >= 2 && s@[0] == 'f' && s@[1] == 'r') <==> (r matches Err(e)
                && e.kind is MissingTag)),
            ((s@.len() >= 2 && s@[0] == 'f' && s@[1] == 'r' && !(forall|i: int|
                2 <= i < s@.len() ==> is_base58_char(#[trigger] s@[i]))) <==> (r matches Err(e)
                && e.kind is InvalidEncoding)),
            r matches Ok(w) ==> w.wf(),
            r matches Ok(w) ==> (exists|b: Seq<u8>|
                {
                    &&& s@ == seq!['f', 'r'] + base58_of(b)
                    &&& b.len() >= WALLET_ADDRESS_LEN + 2
                    &&& b[0] == 0
                    &&& w@ == b.subrange(0, WALLET_ADDRESS_LEN as int)
                    &&& b[WALLET_ADDRESS_LEN as int] == spec_checksum(w@).0
                    &&& b[WALLET_ADDRESS_LEN as int + 1] == spec_checksum(w@).1
                }),
            (r matches Err(e) && e.kind is WrongTagByte) ==> (exists|b: Seq<u8>|
                {
                    &&& s@ == seq!['f', 'r'] + #[trigger] base58_of(b)
                    &&& (b.len() < WALLET_ADDRESS_LEN + 2 || b[0] != 0)
                }),
            (r matches Err(e) && e.kind is ChecksumMismatch) ==> (exists|b: Seq<u8>|
                {
                    &&& s@ == seq!['f', 'r'] + #[trigger] base58_of(b)
                    &&& b.len() >= WALLET_ADDRESS_LEN + 2
                    &&& b[0] == 0
                    &&& (b[WALLET_ADDRESS_LEN as int] != spec_checksum(
                        b.subrange(0, WALLET_ADDRESS_LEN as int),
                    ).0 || b[WALLET_ADDRESS_LEN as int + 1] != spec_checksum(
                        b.subrange(0, WALLET_ADDRESS_LEN as int),
                    ).1)
                }),
            forall|b: Seq<u8>|
                {
                    &&& s@ == seq!['f', 'r'] + base58_of(b)
                    &&& b.len() >= WALLET_ADDRESS_LEN + 2
                    &&& b[0] == 0
                    &&& b[WALLET_ADDRESS_LEN as int] == spec_checksum(
                        b.subrange(0, WALLET_ADDRESS_LEN as int),
                    ).0
                    &&& b[WALLET_ADDRESS_LEN as int + 1] == spec_checksum(
                        b.subrange(0, WALLET_ADDRESS_LEN as int),
                    ).1
                } ==> (r matches Ok(w) && w@ == b.subrange(0, WALLET_ADDRESS_LEN as int)),
    {
        let n = s.unicode_len();
        if n < 2 {
            proof {
                assert forall|b: Seq<u8>| s@ != seq!['f', 'r'] + base58_of(b) by {
                    assert((seq!['f', 'r'] + base58_of(b)).len() >= 2);
                }
            }
            return Err(WalletAddressParseError::new(WalletAddressParseErrorKind::MissingTag));
        }
        let c0 = s.get_char(0);
        let c1 = s.get_char(1);
        if c0 != 'f' || c1 != 'r' {
            proof {
                assert forall|b: Seq<u8>| s@ != seq!['f', 'r'] + base58_of(b) by {
                    let t = seq!['f', 'r'] + base58_of(b);
                    assert(t[0] == 'f' && t[1] == 'r');
                }
            }
            return Err(WalletAddressParseError::new(WalletAddressParseErrorKind::MissingTag));
        }
        let tail = s.substring_char(2, n);
        proof {
            assert(tail@ =~= s@.subrange(2, n as int));
        }
        match base58_decode(tail) {
            Err((byte, position)) => {
                proof {
                    let j = choose|j: int| 0 <= j < tail@.len() && !is_base58_char(tail@[j]);
                    assert(s@[j + 2] == tail@[j]);
                    assert forall|b: Seq<u8>| s@ != seq!['f', 'r'] + base58_of(b) by {
                        if s@ == seq!['f', 'r'] + base58_of(b) {
                            assert(tail@ =~= base58_of(b));
                        }
                    }
                }
                Err(
                    WalletAddressParseError::new(
                        WalletAddressParseErrorKind::InvalidEncoding {
                            byte,
                            position: position.saturating_add(2),
                        },
                    ),
                )
            },
            Ok(bytes) => {
                proof {
                    assert forall|i: int| 2 <= i < s@.len() implies is_base58_char(
                        #[trigger] s@[i],
                    ) by {
                        assert(s@[i] == tail@[i - 2]);
                    }
                    assert forall|b: Seq<u8>|
                        s@ == seq!['f', 'r'] + base58_of(b) implies bytes@ == b by {
                        if s@ == seq!['f', 'r'] + base58_of(b) {
                            assert(base58_of(b) =~= tail@);
                        }
                    }
                    assert(s@ =~= seq!['f', 'r'] + base58_of(bytes@));
                }
                match WalletAddress::from_decoded(&bytes) {
                    Ok(w) => Ok(w),
                    Err(e) => {
                        proof {
                            assert(s@ == seq!['f', 'r'] + base58_of(bytes@));
                            if bytes@.len() < WALLET_ADDRESS_LEN + 2 || bytes@[0] != 0 {
                                assert(e.kind is WrongTagByte);
                                assert(exists|b: Seq<u8>|
                                    {
                                        &&& s@ == seq!['f', 'r'] + #[trigger] base58_of(b)
                                        &&& (b.len() < WALLET_ADDRESS_LEN + 2 || b[0] != 0)
                                    }) by {
                                    assert({
                                        &&& s@ == seq!['f', 'r'] + base58_of(bytes@)
                                        &&& (bytes@.len() < WALLET_ADDRESS_LEN + 2 || bytes@[0]
                                            != 0)
                                    });
                                }
                            } else {
                                assert(e.kind is ChecksumMismatch);
                                assert(exists|b: Seq<u8>|
                                    {
                                        &&& s@ == seq!['f', 'r'] + base58_of(b)
                                        &&& b.len() >= WALLET_ADDRESS_LEN + 2
                                        &&& b[0] == 0
                                        &&& (b[WALLET_ADDRESS_LEN as int] != spec_checksum(
                                            b.subrange(0, WALLET_ADDRESS_LEN as int),
                                        ).0 || b[WALLET_ADDRESS_LEN as int + 1] != spec_checksum(
                                            b.subrange(0, WALLET_ADDRESS_LEN as int),
                                        ).1)
                                    }) by {
                                    assert({
                                        &&& s@ == seq!['f', 'r'] + base58_of(bytes@)
                                        &&& bytes@.len() >= WALLET_ADDRESS_LEN + 2
                                        &&& bytes@[0] == 0
                                        &&& (bytes@[WALLET_ADDRESS_LEN as int] != spec_checksum(
                                            bytes@.subrange(0, WALLET_ADDRESS_LEN as int),
                                        ).0 || bytes@[WALLET_ADDRESS_LEN as int + 1]
                                            != spec_checksum(
                                            bytes@.subrange(0, WALLET_ADDRESS_LEN as int),
                                        ).1)
                                    });
                                }
                            }
                        }
                        Err(e)
                    },
                }
            },
        }
    }
}

} // verus!
