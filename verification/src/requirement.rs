//! Code requirement expressions and their binary encoding.
//!
//! An expression is a tree of tagged nodes. A node is stored as its opcode, a
//! big-endian `u32`, followed by its operands in the shape that the opcode
//! fixes. A byte string is stored as its length, its bytes, and zero bytes up
//! to the next multiple of four; the padding is not counted in the length.

use vstd::prelude::*;
use crate::error::CodesignError;
use crate::wire::{align4, be32, be32_at, be64, be64_at, pad4, zeros};

verus! {

/// The opcode of the expression that is never satisfied.
pub const OP_FALSE: u32 = 0;

/// The opcode of the expression that is always satisfied.
pub const OP_TRUE: u32 = 1;

/// The opcode of a test of the signing identifier.
pub const OP_IDENT: u32 = 2;

/// The opcode of a test for Apple's root.
pub const OP_APPLE_ANCHOR: u32 = 3;

/// The opcode of a test of the hash of a certificate.
pub const OP_ANCHOR_HASH: u32 = 4;

/// The opcode of a test of a key of `Info.plist` for a value.
pub const OP_INFO_KEY_VALUE: u32 = 5;

/// The opcode of a conjunction.
pub const OP_AND: u32 = 6;

/// The opcode of a disjunction.
pub const OP_OR: u32 = 7;

/// The opcode of a test of the hash of the code directory.
pub const OP_CD_HASH: u32 = 8;

/// The opcode of a negation.
pub const OP_NOT: u32 = 9;

/// The opcode of a match of a key of `Info.plist`.
pub const OP_INFO_KEY_FIELD: u32 = 10;

/// The opcode of a match of a named field of a certificate.
pub const OP_CERT_FIELD: u32 = 11;

/// The opcode of a match of an extension of a certificate.
pub const OP_CERT_GENERIC: u32 = 12;

/// The opcode of a match of a policy of a certificate.
pub const OP_CERT_POLICY: u32 = 13;

/// The opcode of a test for trust in one certificate.
pub const OP_TRUSTED_CERT: u32 = 14;

/// The opcode of a test for trust in the whole chain.
pub const OP_TRUSTED_CERTS: u32 = 15;

/// The opcode of a match of a time-stamped extension of a certificate.
pub const OP_CERT_FIELD_DATE: u32 = 16;

/// The code of the match that a field is present.
pub const MATCH_EXISTS: u32 = 0;

/// The code of the match that a field is not present.
pub const MATCH_ABSENT: u32 = 14;

/// A comparison of a field with a byte string.
#[derive(Clone, Copy, Debug, PartialEq, Eq, Structural)]
pub enum DataMatch {
    Equal,
    Contains,
    BeginsWith,
    EndsWith,
    LessThan,
    GreaterThan,
    LessEqual,
    GreaterEqual,
}

/// A comparison of a field with a point in time.
#[derive(Clone, Copy, Debug, PartialEq, Eq, Structural)]
pub enum DateMatch {
    On,
    Before,
    After,
    OnOrBefore,
    OnOrAfter,
}

/// How the value of a field is tested.
#[derive(Debug, PartialEq, Eq)]
pub enum MatchExpression {
    /// The field is present.
    Exists,
    /// The field is not present.
    Absent,
    /// The field compares to the bytes as the operator says.
    Data(DataMatch, Vec<u8>),
    /// The field compares to the time, in seconds, as the operator says.
    Date(DateMatch, i64),
}

/// A code requirement expression.
#[derive(Debug, PartialEq, Eq)]
pub enum Expression {
    /// Never satisfied.
    False,
    /// Always satisfied.
    True,
    /// The signing identifier is the given one.
    Ident(Vec<u8>),
    /// The chain ends in Apple's root.
    AppleAnchor,
    /// The certificate at the slot has the given hash.
    AnchorHash(i32, Vec<u8>),
    /// The key of `Info.plist` has the given value.
    InfoKeyValue(Vec<u8>, Vec<u8>),
    /// Both operands are satisfied.
    And(Box<Expression>, Box<Expression>),
    /// One of the operands is satisfied.
    Or(Box<Expression>, Box<Expression>),
    /// The code directory has the given hash.
    CDHash(Vec<u8>),
    /// The operand is not satisfied.
    Not(Box<Expression>),
    /// The key of `Info.plist` matches.
    InfoKeyField(Vec<u8>, MatchExpression),
    /// The named field of the certificate at the slot matches.
    CertField(i32, Vec<u8>, MatchExpression),
    /// The extension of the given OID in the certificate at the slot matches.
    CertGeneric(i32, Vec<u8>, MatchExpression),
    /// The policy of the given OID in the certificate at the slot matches.
    CertPolicy(i32, Vec<u8>, MatchExpression),
    /// The certificate at the slot is trusted.
    TrustedCert(i32),
    /// The whole chain is trusted.
    TrustedCerts,
    /// The time-stamped extension of the given OID in the certificate at the
    /// slot matches.
    CertFieldDate(i32, Vec<u8>, MatchExpression),
}

/// The mathematical value of a [`MatchExpression`].
pub enum MatchView {
    Exists,
    Absent,
    Data(DataMatch, Seq<u8>),
    Date(DateMatch, i64),
}

/// The mathematical value of an [`Expression`].
pub enum ExpressionView {
    False,
    True,
    Ident(Seq<u8>),
    AppleAnchor,
    AnchorHash(i32, Seq<u8>),
    InfoKeyValue(Seq<u8>, Seq<u8>),
    And(Box<ExpressionView>, Box<ExpressionView>),
    Or(Box<ExpressionView>, Box<ExpressionView>),
    CDHash(Seq<u8>),
    Not(Box<ExpressionView>),
    InfoKeyField(Seq<u8>, MatchView),
    CertField(i32, Seq<u8>, MatchView),
    CertGeneric(i32, Seq<u8>, MatchView),
    CertPolicy(i32, Seq<u8>, MatchView),
    TrustedCert(i32),
    TrustedCerts,
    CertFieldDate(i32, Seq<u8>, MatchView),
}

impl View for MatchExpression {
    type V = MatchView;

    open spec fn view(&self) -> MatchView {
        match self {
            MatchExpression::Exists => MatchView::Exists,
            MatchExpression::Absent => MatchView::Absent,
            MatchExpression::Data(op, value) => MatchView::Data(*op, value@),
            MatchExpression::Date(op, time) => MatchView::Date(*op, *time),
        }
    }
}

impl View for Expression {
    type V = ExpressionView;

    open spec fn view(&self) -> ExpressionView
        decreases self,
    {
        match self {
            Expression::False => ExpressionView::False,
            Expression::True => ExpressionView::True,
            Expression::Ident(s) => ExpressionView::Ident(s@),
            Expression::AppleAnchor => ExpressionView::AppleAnchor,
            Expression::AnchorHash(slot, hash) => ExpressionView::AnchorHash(*slot, hash@),
            Expression::InfoKeyValue(key, value) => ExpressionView::InfoKeyValue(key@, value@),
            Expression::And(a, b) => ExpressionView::And(Box::new((**a)@), Box::new((**b)@)),
            Expression::Or(a, b) => ExpressionView::Or(Box::new((**a)@), Box::new((**b)@)),
            Expression::CDHash(hash) => ExpressionView::CDHash(hash@),
            Expression::Not(a) => ExpressionView::Not(Box::new((**a)@)),
            Expression::InfoKeyField(key, m) => ExpressionView::InfoKeyField(key@, m@),
            Expression::CertField(slot, field, m) => ExpressionView::CertField(*slot, field@, m@),
            Expression::CertGeneric(slot, oid, m) => ExpressionView::CertGeneric(*slot, oid@, m@),
            Expression::CertPolicy(slot, oid, m) => ExpressionView::CertPolicy(*slot, oid@, m@),
            Expression::TrustedCert(slot) => ExpressionView::TrustedCert(*slot),
            Expression::TrustedCerts => ExpressionView::TrustedCerts,
            Expression::CertFieldDate(slot, oid, m) => ExpressionView::CertFieldDate(
                *slot,
                oid@,
                m@,
            ),
        }
    }
}

/// The code of a comparison with bytes.
pub open spec fn data_match_code(op: DataMatch) -> u32 {
    match op {
        DataMatch::Equal => 1,
        DataMatch::Contains => 2,
        DataMatch::BeginsWith => 3,
        DataMatch::EndsWith => 4,
        DataMatch::LessThan => 5,
        DataMatch::GreaterThan => 6,
        DataMatch::LessEqual => 7,
        DataMatch::GreaterEqual => 8,
    }
}

/// The code of a comparison with a time.
pub open spec fn date_match_code(op: DateMatch) -> u32 {
    match op {
        DateMatch::On => 9,
        DateMatch::Before => 10,
        DateMatch::After => 11,
        DateMatch::OnOrBefore => 12,
        DateMatch::OnOrAfter => 13,
    }
}

/// The comparison with bytes that `code` stands for.
pub open spec fn data_match_of(code: u32) -> Option<DataMatch> {
    if code == 1 {
        Some(DataMatch::Equal)
    } else if code == 2 {
        Some(DataMatch::Contains)
    } else if code == 3 {
        Some(DataMatch::BeginsWith)
    } else if code == 4 {
        Some(DataMatch::EndsWith)
    } else if code == 5 {
        Some(DataMatch::LessThan)
    } else if code == 6 {
        Some(DataMatch::GreaterThan)
    } else if code == 7 {
        Some(DataMatch::LessEqual)
    } else if code == 8 {
        Some(DataMatch::GreaterEqual)
    } else {
        None
    }
}

/// The comparison with a time that `code` stands for.
pub open spec fn date_match_of(code: u32) -> Option<DateMatch> {
    if code == 9 {
        Some(DateMatch::On)
    } else if code == 10 {
        Some(DateMatch::Before)
    } else if code == 11 {
        Some(DateMatch::After)
    } else if code == 12 {
        Some(DateMatch::OnOrBefore)
    } else if code == 13 {
        Some(DateMatch::OnOrAfter)
    } else {
        None
    }
}

/// The unsigned word that stores a signed slot number, in two's complement.
#[verifier::opaque]
pub open spec fn slot_word(slot: i32) -> u32 {
    if slot >= 0 {
        slot as u32
    } else {
        (slot + 0x1_0000_0000) as u32
    }
}

/// The signed slot number that an unsigned word stores.
#[verifier::opaque]
pub open spec fn slot_of(word: u32) -> i32 {
    if word < 0x8000_0000 {
        word as i32
    } else {
        (word - 0x1_0000_0000) as i32
    }
}

/// The unsigned word that stores a signed time, in two's complement.
#[verifier::opaque]
pub open spec fn time_word(time: i64) -> u64 {
    if time >= 0 {
        time as u64
    } else {
        (time + 0x1_0000_0000_0000_0000) as u64
    }
}

/// The signed time that an unsigned word stores.
#[verifier::opaque]
pub open spec fn time_of(word: u64) -> i64 {
    if word < 0x8000_0000_0000_0000 {
        word as i64
    } else {
        (word - 0x1_0000_0000_0000_0000) as i64
    }
}

/// The encoding of a byte string: length, bytes, zero padding to four.
#[verifier::opaque]
pub open spec fn enc_data(d: Seq<u8>) -> Seq<u8> {
    be32(d.len() as u32) + d + zeros(pad4(d.len() as int) as nat)
}

/// The encoding of a match.
#[verifier::opaque]
pub open spec fn enc_match(m: MatchView) -> Seq<u8> {
    match m {
        MatchView::Exists => be32(MATCH_EXISTS),
        MatchView::Absent => be32(MATCH_ABSENT),
        MatchView::Data(op, value) => be32(data_match_code(op)) + enc_data(value),
        MatchView::Date(op, time) => be32(date_match_code(op)) + be64(time_word(time)),
    }
}

/// The encoding of an expression.
pub open spec fn enc_expr(e: ExpressionView) -> Seq<u8>
    decreases e,
{
    match e {
        ExpressionView::False => be32(OP_FALSE),
        ExpressionView::True => be32(OP_TRUE),
        ExpressionView::Ident(s) => be32(OP_IDENT) + enc_data(s),
        ExpressionView::AppleAnchor => be32(OP_APPLE_ANCHOR),
        ExpressionView::AnchorHash(slot, hash) => be32(OP_ANCHOR_HASH) + be32(slot_word(slot))
            + enc_data(hash),
        ExpressionView::InfoKeyValue(key, value) => be32(OP_INFO_KEY_VALUE) + enc_data(key)
            + enc_data(value),
        ExpressionView::And(a, b) => be32(OP_AND) + enc_expr(*a) + enc_expr(*b),
        ExpressionView::Or(a, b) => be32(OP_OR) + enc_expr(*a) + enc_expr(*b),
        ExpressionView::CDHash(hash) => be32(OP_CD_HASH) + enc_data(hash),
        ExpressionView::Not(a) => be32(OP_NOT) + enc_expr(*a),
        ExpressionView::InfoKeyField(key, m) => be32(OP_INFO_KEY_FIELD) + enc_data(key)
            + enc_match(m),
        ExpressionView::CertField(slot, field, m) => be32(OP_CERT_FIELD) + be32(slot_word(slot))
            + enc_data(field) + enc_match(m),
        ExpressionView::CertGeneric(slot, oid, m) => be32(OP_CERT_GENERIC) + be32(
            slot_word(slot),
        ) + enc_data(oid) + enc_match(m),
        ExpressionView::CertPolicy(slot, oid, m) => be32(OP_CERT_POLICY) + be32(slot_word(slot))
            + enc_data(oid) + enc_match(m),
        ExpressionView::TrustedCert(slot) => be32(OP_TRUSTED_CERT) + be32(slot_word(slot)),
        ExpressionView::TrustedCerts => be32(OP_TRUSTED_CERTS),
        ExpressionView::CertFieldDate(slot, oid, m) => be32(OP_CERT_FIELD_DATE) + be32(
            slot_word(slot),
        ) + enc_data(oid) + enc_match(m),
    }
}

/// Whether every byte string of the match has a length that a `u32` holds.
pub open spec fn match_fits(m: MatchView) -> bool {
    m matches MatchView::Data(_, value) ==> value.len() <= u32::MAX
}

/// Whether every byte string of the expression has a length that a `u32`
/// holds, so that the expression can be encoded.
pub open spec fn expr_fits(e: ExpressionView) -> bool
    decreases e,
{
    match e {
        ExpressionView::False => true,
        ExpressionView::True => true,
        ExpressionView::Ident(s) => s.len() <= u32::MAX,
        ExpressionView::AppleAnchor => true,
        ExpressionView::AnchorHash(_, hash) => hash.len() <= u32::MAX,
        ExpressionView::InfoKeyValue(key, value) => key.len() <= u32::MAX && value.len()
            <= u32::MAX,
        ExpressionView::And(a, b) => expr_fits(*a) && expr_fits(*b),
        ExpressionView::Or(a, b) => expr_fits(*a) && expr_fits(*b),
        ExpressionView::CDHash(hash) => hash.len() <= u32::MAX,
        ExpressionView::Not(a) => expr_fits(*a),
        ExpressionView::InfoKeyField(key, m) => key.len() <= u32::MAX && match_fits(m),
        ExpressionView::CertField(_, field, m) => field.len() <= u32::MAX && match_fits(m),
        ExpressionView::CertGeneric(_, oid, m) => oid.len() <= u32::MAX && match_fits(m),
        ExpressionView::CertPolicy(_, oid, m) => oid.len() <= u32::MAX && match_fits(m),
        ExpressionView::TrustedCert(_) => true,
        ExpressionView::TrustedCerts => true,
        ExpressionView::CertFieldDate(_, oid, m) => oid.len() <= u32::MAX && match_fits(m),
    }
}

/// Splits a big-endian `u32` off the front.
pub open spec fn take_u32(s: Seq<u8>) -> Option<(u32, Seq<u8>)> {
    if s.len() < 4 {
        None
    } else {
        Some((be32_at(s, 0), s.subrange(4, s.len() as int)))
    }
}

/// Splits a big-endian `u64` off the front.
pub open spec fn take_u64(s: Seq<u8>) -> Option<(u64, Seq<u8>)> {
    if s.len() < 8 {
        None
    } else {
        Some((be64_at(s, 0), s.subrange(8, s.len() as int)))
    }
}

/// Splits a length-prefixed, padded byte string off the front.
#[verifier::opaque]
pub open spec fn take_data(s: Seq<u8>) -> Option<(Seq<u8>, Seq<u8>)> {
    match take_u32(s) {
        None => None,
        Some((n, r)) => if r.len() < align4(n as int) {
            None
        } else {
            Some((r.subrange(0, n as int), r.subrange(align4(n as int), r.len() as int)))
        },
    }
}

/// What decoding a match from the front of `s` gives: the match and the
/// bytes behind it.
#[verifier::opaque]
pub open spec fn dec_match(s: Seq<u8>) -> Result<(MatchView, Seq<u8>), CodesignError> {
    match take_u32(s) {
        None => Err(CodesignError::BlobTruncated),
        Some((code, r)) => if code == MATCH_EXISTS {
            Ok((MatchView::Exists, r))
        } else if code == MATCH_ABSENT {
            Ok((MatchView::Absent, r))
        } else if data_match_of(code) is Some {
            match take_data(r) {
                None => Err(CodesignError::BlobTruncated),
                Some((value, r1)) => Ok((MatchView::Data(data_match_of(code)->Some_0, value), r1)),
            }
        } else if date_match_of(code) is Some {
            match take_u64(r) {
                None => Err(CodesignError::BlobTruncated),
                Some((word, r1)) => Ok(
                    (MatchView::Date(date_match_of(code)->Some_0, time_of(word)), r1),
                ),
            }
        } else {
            Err(CodesignError::UnknownRequirementOpcode)
        },
    }
}

/// What decoding a slot, a byte string and a match from the front gives.
#[verifier::opaque]
pub open spec fn dec_cert_operands(s: Seq<u8>) -> Result<
    (i32, Seq<u8>, MatchView, Seq<u8>),
    CodesignError,
> {
    match take_u32(s) {
        None => Err(CodesignError::BlobTruncated),
        Some((word, r)) => match take_data(r) {
            None => Err(CodesignError::BlobTruncated),
            Some((name, r1)) => match dec_match(r1) {
                Err(e) => Err(e),
                Ok((m, r2)) => Ok((slot_of(word), name, m, r2)),
            },
        },
    }
}

/// What decoding an expression from the front of `s` gives: the expression
/// and the bytes behind it.
///
/// An input that ends inside a node is `BlobTruncated`; an opcode outside the
/// known set is `UnknownRequirementOpcode`.
pub open spec fn dec_expr(s: Seq<u8>) -> Result<(ExpressionView, Seq<u8>), CodesignError>
    decreases s.len(),
{
    match take_u32(s) {
        None => Err(CodesignError::BlobTruncated),
        Some((op, r)) => if op == OP_FALSE {
            Ok((ExpressionView::False, r))
        } else if op == OP_TRUE {
            Ok((ExpressionView::True, r))
        } else if op == OP_IDENT {
            match take_data(r) {
                None => Err(CodesignError::BlobTruncated),
                Some((d, r1)) => Ok((ExpressionView::Ident(d), r1)),
            }
        } else if op == OP_APPLE_ANCHOR {
            Ok((ExpressionView::AppleAnchor, r))
        } else if op == OP_ANCHOR_HASH {
            match take_u32(r) {
                None => Err(CodesignError::BlobTruncated),
                Some((word, r1)) => match take_data(r1) {
                    None => Err(CodesignError::BlobTruncated),
                    Some((hash, r2)) => Ok((ExpressionView::AnchorHash(slot_of(word), hash), r2)),
                },
            }
        } else if op == OP_INFO_KEY_VALUE {
            match take_data(r) {
                None => Err(CodesignError::BlobTruncated),
                Some((key, r1)) => match take_data(r1) {
                    None => Err(CodesignError::BlobTruncated),
                    Some((value, r2)) => Ok((ExpressionView::InfoKeyValue(key, value), r2)),
                },
            }
        } else if op == OP_AND || op == OP_OR {
            match dec_expr(r) {
                Err(e) => Err(e),
                Ok((a, r1)) => if r1.len() >= s.len() {
                    Err(CodesignError::BlobTruncated)
                } else {
                    match dec_expr(r1) {
                        Err(e) => Err(e),
                        Ok((b, r2)) => if op == OP_AND {
                            Ok((ExpressionView::And(Box::new(a), Box::new(b)), r2))
                        } else {
                            Ok((ExpressionView::Or(Box::new(a), Box::new(b)), r2))
                        },
                    }
                },
            }
        } else if op == OP_CD_HASH {
            match take_data(r) {
                None => Err(CodesignError::BlobTruncated),
                Some((d, r1)) => Ok((ExpressionView::CDHash(d), r1)),
            }
        } else if op == OP_NOT {
            match dec_expr(r) {
                Err(e) => Err(e),
                Ok((a, r1)) => Ok((ExpressionView::Not(Box::new(a)), r1)),
            }
        } else if op == OP_INFO_KEY_FIELD {
            match take_data(r) {
                None => Err(CodesignError::BlobTruncated),
                Some((key, r1)) => match dec_match(r1) {
                    Err(e) => Err(e),
                    Ok((m, r2)) => Ok((ExpressionView::InfoKeyField(key, m), r2)),
                },
            }
        } else if op == OP_CERT_FIELD {
            match dec_cert_operands(r) {
                Err(e) => Err(e),
                Ok((slot, name, m, r1)) => Ok((ExpressionView::CertField(slot, name, m), r1)),
            }
        } else if op == OP_CERT_GENERIC {
            match dec_cert_operands(r) {
                Err(e) => Err(e),
                Ok((slot, name, m, r1)) => Ok((ExpressionView::CertGeneric(slot, name, m), r1)),
            }
        } else if op == OP_CERT_POLICY {
            match dec_cert_operands(r) {
                Err(e) => Err(e),
                Ok((slot, name, m, r1)) => Ok((ExpressionView::CertPolicy(slot, name, m), r1)),
            }
        } else if op == OP_TRUSTED_CERT {
            match take_u32(r) {
                None => Err(CodesignError::BlobTruncated),
                Some((word, r1)) => Ok((ExpressionView::TrustedCert(slot_of(word)), r1)),
            }
        } else if op == OP_TRUSTED_CERTS {
            Ok((ExpressionView::TrustedCerts, r))
        } else if op == OP_CERT_FIELD_DATE {
            match dec_cert_operands(r) {
                Err(e) => Err(e),
                Ok((slot, name, m, r1)) => Ok((ExpressionView::CertFieldDate(slot, name, m), r1)),
            }
        } else {
            Err(CodesignError::UnknownRequirementOpcode)
        },
    }
}

/// What parsing `s` as an expression gives: the expression at its front.
pub open spec fn parsed_expr(s: Seq<u8>) -> Result<ExpressionView, CodesignError> {
    match dec_expr(s) {
        Err(e) => Err(e),
        Ok((e, _)) => Ok(e),
    }
}

} // verus!
