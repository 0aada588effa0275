//! Reading and writing code requirement expressions, and the laws that tie
//! the two together.

use vstd::prelude::*;
use vstd::slice::{slice_subrange, slice_to_vec};
use crate::error::CodesignError;
use crate::requirement::{
    data_match_code, data_match_of, DataMatch, date_match_code, date_match_of, DateMatch,
    dec_cert_operands, dec_expr, dec_match, enc_data, enc_expr, enc_match, expr_fits, Expression,
    ExpressionView, MATCH_ABSENT, MATCH_EXISTS, match_fits, MatchExpression, MatchView,
    OP_ANCHOR_HASH, OP_AND, OP_APPLE_ANCHOR, OP_CD_HASH, OP_CERT_FIELD, OP_CERT_FIELD_DATE,
    OP_CERT_GENERIC, OP_CERT_POLICY, OP_FALSE, OP_IDENT, OP_INFO_KEY_FIELD, OP_INFO_KEY_VALUE,
    OP_NOT, OP_OR, OP_TRUE, OP_TRUSTED_CERT, OP_TRUSTED_CERTS, parsed_expr, slot_of, slot_word,
    take_data, take_u32, take_u64, time_of, time_word,
};
use crate::wire::{
    align4, be32, be64, lemma_be32_at_inside, lemma_be32_at_window, lemma_be64_value, pad4,
    padding_for, put_be32, put_be64, put_bytes, put_zeros, read_be32, read_be64, zeros,
};

verus! {

/// A word written in front of `rest` is split off again.
pub proof fn lemma_take_u32(v: u32, rest: Seq<u8>)
    ensures
        take_u32(be32(v) + rest) == Some((v, rest)),
{
    let s = be32(v) + rest;
    lemma_be32_at_inside(Seq::<u8>::empty(), v, rest);
    assert(Seq::<u8>::empty() + be32(v) + rest =~= s);
    assert(s.subrange(4, s.len() as int) =~= rest);
}

/// A long word written in front of `rest` is split off again.
pub proof fn lemma_take_u64(v: u64, rest: Seq<u8>)
    ensures
        take_u64(be64(v) + rest) == Some((v, rest)),
{
    let s = be64(v) + rest;
    lemma_be64_value(v);
    assert(s.subrange(0, 4) =~= be64(v).subrange(0, 4));
    assert(s.subrange(4, 8) =~= be64(v).subrange(4, 8));
    lemma_be32_at_window(s, be64(v), 0, 0);
    lemma_be32_at_window(s, be64(v), 4, 4);
    assert(s.subrange(8, s.len() as int) =~= rest);
}

/// A byte string written in front of `rest` is split off again.
pub proof fn lemma_take_data(d: Seq<u8>, rest: Seq<u8>)
    requires
        d.len() <= u32::MAX,
    ensures
        take_data(enc_data(d) + rest) == Some((d, rest)),
        enc_data(d).len() == 4 + align4(d.len() as int),
        enc_data(d).len() % 4 == 0,
{
    reveal(enc_data);
    reveal(take_data);
    let n = d.len() as u32;
    let pad = zeros(pad4(d.len() as int) as nat);
    let r = d + pad + rest;
    assert(enc_data(d) + rest =~= be32(n) + r);
    lemma_take_u32(n, r);
    assert(r.subrange(0, n as int) =~= d);
    assert(r.subrange(align4(n as int), r.len() as int) =~= rest);
}

/// The slot number survives its storage as an unsigned word.
pub proof fn lemma_slot_word(slot: i32)
    ensures
        slot_of(slot_word(slot)) == slot,
{
    reveal(slot_word);
    reveal(slot_of);
}

/// The time survives its storage as an unsigned word.
pub proof fn lemma_time_word(time: i64)
    ensures
        time_of(time_word(time)) == time,
{
    reveal(time_word);
    reveal(time_of);
}

/// The code of a comparison stands for that comparison and for no other.
pub proof fn lemma_match_codes(data: DataMatch, date: DateMatch)
    ensures
        data_match_of(data_match_code(data)) == Some(data),
        date_match_of(date_match_code(date)) == Some(date),
        date_match_of(data_match_code(data)) is None,
        data_match_of(date_match_code(date)) is None,
        data_match_code(data) != MATCH_EXISTS && data_match_code(data) != MATCH_ABSENT,
        date_match_code(date) != MATCH_EXISTS && date_match_code(date) != MATCH_ABSENT,
{
}

/// A match written in front of `rest` is decoded again.
pub proof fn lemma_dec_match(m: MatchView, rest: Seq<u8>)
    requires
        match_fits(m),
    ensures
        dec_match(enc_match(m) + rest) == Ok::<(MatchView, Seq<u8>), CodesignError>((m, rest)),
        enc_match(m).len() % 4 == 0,
{
    reveal(enc_match);
    reveal(dec_match);
    match m {
        MatchView::Exists => {
            lemma_take_u32(MATCH_EXISTS, rest);
        },
        MatchView::Absent => {
            lemma_take_u32(MATCH_ABSENT, rest);
        },
        MatchView::Data(op, value) => {
            lemma_match_codes(op, DateMatch::On);
            assert(enc_match(m) + rest =~= be32(data_match_code(op)) + (enc_data(value) + rest));
            lemma_take_u32(data_match_code(op), enc_data(value) + rest);
            lemma_take_data(value, rest);
        },
        MatchView::Date(op, time) => {
            lemma_match_codes(DataMatch::Equal, op);
            lemma_time_word(time);
            assert(enc_match(m) + rest =~= be32(date_match_code(op)) + (be64(time_word(time))
                + rest));
            lemma_take_u32(date_match_code(op), be64(time_word(time)) + rest);
            lemma_take_u64(time_word(time), rest);
        },
    }
}

/// A slot, a byte string and a match written in front of `rest` are decoded
/// again.
pub proof fn lemma_dec_cert_operands(slot: i32, name: Seq<u8>, m: MatchView, rest: Seq<u8>)
    requires
        name.len() <= u32::MAX,
        match_fits(m),
    ensures
        dec_cert_operands(be32(slot_word(slot)) + enc_data(name) + enc_match(m) + rest) == Ok::<
            (i32, Seq<u8>, MatchView, Seq<u8>),
            CodesignError,
        >((slot, name, m, rest)),
        (be32(slot_word(slot)) + enc_data(name) + enc_match(m)).len() % 4 == 0,
{
    reveal(dec_cert_operands);
    let s = be32(slot_word(slot)) + enc_data(name) + enc_match(m) + rest;
    assert(s =~= be32(slot_word(slot)) + (enc_data(name) + (enc_match(m) + rest)));
    lemma_take_u32(slot_word(slot), enc_data(name) + (enc_match(m) + rest));
    lemma_take_data(name, enc_match(m) + rest);
    lemma_dec_match(m, rest);
    lemma_slot_word(slot);
}

/// What the decoding law says of one expression and one run behind it.
pub open spec fn decodes_back(e: ExpressionView, rest: Seq<u8>) -> bool {
    &&& dec_expr(enc_expr(e) + rest) == Ok::<(ExpressionView, Seq<u8>), CodesignError>((e, rest))
    &&& enc_expr(e).len() % 4 == 0
    &&& enc_expr(e).len() >= 4
}

proof fn lemma_dec_nullary(e: ExpressionView, rest: Seq<u8>)
    requires
        e is False || e is True || e is AppleAnchor || e is TrustedCerts,
    ensures
        decodes_back(e, rest),
{
    match e {
        ExpressionView::False => lemma_take_u32(OP_FALSE, rest),
        ExpressionView::True => lemma_take_u32(OP_TRUE, rest),
        ExpressionView::AppleAnchor => lemma_take_u32(OP_APPLE_ANCHOR, rest),
        _ => lemma_take_u32(OP_TRUSTED_CERTS, rest),
    }
}

proof fn lemma_dec_ident(d: Seq<u8>, rest: Seq<u8>)
    requires
        d.len() <= u32::MAX,
    ensures
        decodes_back(ExpressionView::Ident(d), rest),
{
    let s = enc_expr(ExpressionView::Ident(d)) + rest;
    assert(s =~= be32(OP_IDENT) + (enc_data(d) + rest));
    lemma_take_u32(OP_IDENT, enc_data(d) + rest);
    lemma_take_data(d, rest);
}

proof fn lemma_dec_cd_hash(d: Seq<u8>, rest: Seq<u8>)
    requires
        d.len() <= u32::MAX,
    ensures
        decodes_back(ExpressionView::CDHash(d), rest),
{
    let s = enc_expr(ExpressionView::CDHash(d)) + rest;
    assert(s =~= be32(OP_CD_HASH) + (enc_data(d) + rest));
    lemma_take_u32(OP_CD_HASH, enc_data(d) + rest);
    lemma_take_data(d, rest);
}

proof fn lemma_dec_anchor_hash(slot: i32, hash: Seq<u8>, rest: Seq<u8>)
    requires
        hash.len() <= u32::MAX,
    ensures
        decodes_back(ExpressionView::AnchorHash(slot, hash), rest),
{
    let s = enc_expr(ExpressionView::AnchorHash(slot, hash)) + rest;
    assert(s =~= be32(OP_ANCHOR_HASH) + (be32(slot_word(slot)) + (enc_data(hash) + rest)));
    lemma_take_u32(OP_ANCHOR_HASH, be32(slot_word(slot)) + (enc_data(hash) + rest));
    lemma_take_u32(slot_word(slot), enc_data(hash) + rest);
    lemma_take_data(hash, rest);
    lemma_slot_word(slot);
}

proof fn lemma_dec_info_key_value(key: Seq<u8>, value: Seq<u8>, rest: Seq<u8>)
    requires
        key.len() <= u32::MAX,
        value.len() <= u32::MAX,
    ensures
        decodes_back(ExpressionView::InfoKeyValue(key, value), rest),
{
    let s = enc_expr(ExpressionView::InfoKeyValue(key, value)) + rest;
    assert(s =~= be32(OP_INFO_KEY_VALUE) + (enc_data(key) + (enc_data(value) + rest)));
    lemma_take_u32(OP_INFO_KEY_VALUE, enc_data(key) + (enc_data(value) + rest));
    lemma_take_data(key, enc_data(value) + rest);
    lemma_take_data(value, rest);
}

proof fn lemma_dec_binary(is_and: bool, a: ExpressionView, b: ExpressionView, rest: Seq<u8>)
    requires
        decodes_back(a, enc_expr(b) + rest),
        decodes_back(b, rest),
    ensures
        is_and ==> decodes_back(ExpressionView::And(Box::new(a), Box::new(b)), rest),
        !is_and ==> decodes_back(ExpressionView::Or(Box::new(a), Box::new(b)), rest),
{
    let op = if is_and {
        OP_AND
    } else {
        OP_OR
    };
    let e = if is_and {
        ExpressionView::And(Box::new(a), Box::new(b))
    } else {
        ExpressionView::Or(Box::new(a), Box::new(b))
    };
    let s = enc_expr(e) + rest;
    assert(enc_expr(e) =~= be32(op) + enc_expr(a) + enc_expr(b));
    assert(s =~= be32(op) + (enc_expr(a) + (enc_expr(b) + rest)));
    lemma_take_u32(op, enc_expr(a) + (enc_expr(b) + rest));
    assert(dec_expr(s) == Ok::<(ExpressionView, Seq<u8>), CodesignError>((e, rest)));
}

proof fn lemma_dec_not(a: ExpressionView, rest: Seq<u8>)
    requires
        decodes_back(a, rest),
    ensures
        decodes_back(ExpressionView::Not(Box::new(a)), rest),
{
    let e = ExpressionView::Not(Box::new(a));
    let s = enc_expr(e) + rest;
    assert(enc_expr(e) =~= be32(OP_NOT) + enc_expr(a));
    assert(s =~= be32(OP_NOT) + (enc_expr(a) + rest));
    lemma_take_u32(OP_NOT, enc_expr(a) + rest);
}

proof fn lemma_dec_info_key_field(key: Seq<u8>, m: MatchView, rest: Seq<u8>)
    requires
        key.len() <= u32::MAX,
        match_fits(m),
    ensures
        decodes_back(ExpressionView::InfoKeyField(key, m), rest),
{
    let s = enc_expr(ExpressionView::InfoKeyField(key, m)) + rest;
    assert(s =~= be32(OP_INFO_KEY_FIELD) + (enc_data(key) + (enc_match(m) + rest)));
    lemma_take_u32(OP_INFO_KEY_FIELD, enc_data(key) + (enc_match(m) + rest));
    lemma_take_data(key, enc_match(m) + rest);
    lemma_dec_match(m, rest);
}

proof fn lemma_dec_trusted_cert(slot: i32, rest: Seq<u8>)
    ensures
        decodes_back(ExpressionView::TrustedCert(slot), rest),
{
    let s = enc_expr(ExpressionView::TrustedCert(slot)) + rest;
    assert(s =~= be32(OP_TRUSTED_CERT) + (be32(slot_word(slot)) + rest));
    lemma_take_u32(OP_TRUSTED_CERT, be32(slot_word(slot)) + rest);
    lemma_take_u32(slot_word(slot), rest);
    lemma_slot_word(slot);
}

proof fn lemma_dec_cert(e: ExpressionView, rest: Seq<u8>)
    requires
        e is CertField || e is CertGeneric || e is CertPolicy || e is CertFieldDate,
        expr_fits(e),
    ensures
        decodes_back(e, rest),
{
    match e {
        ExpressionView::CertField(slot, name, m) => {
            let operands = be32(slot_word(slot)) + enc_data(name) + enc_match(m);
            assert(enc_expr(e) + rest =~= be32(OP_CERT_FIELD) + (operands + rest));
            lemma_take_u32(OP_CERT_FIELD, operands + rest);
            lemma_dec_cert_operands(slot, name, m, rest);
            assert(enc_expr(e) =~= be32(OP_CERT_FIELD) + operands);
        },
        ExpressionView::CertGeneric(slot, name, m) => {
            let operands = be32(slot_word(slot)) + enc_data(name) + enc_match(m);
            assert(enc_expr(e) + rest =~= be32(OP_CERT_GENERIC) + (operands + rest));
            lemma_take_u32(OP_CERT_GENERIC, operands + rest);
            lemma_dec_cert_operands(slot, name, m, rest);
            assert(enc_expr(e) =~= be32(OP_CERT_GENERIC) + operands);
        },
        ExpressionView::CertPolicy(slot, name, m) => {
            let operands = be32(slot_word(slot)) + enc_data(name) + enc_match(m);
            assert(enc_expr(e) + rest =~= be32(OP_CERT_POLICY) + (operands + rest));
            lemma_take_u32(OP_CERT_POLICY, operands + rest);
            lemma_dec_cert_operands(slot, name, m, rest);
            assert(enc_expr(e) =~= be32(OP_CERT_POLICY) + operands);
        },
        ExpressionView::CertFieldDate(slot, name, m) => {
            let operands = be32(slot_word(slot)) + enc_data(name) + enc_match(m);
            assert(enc_expr(e) + rest =~= be32(OP_CERT_FIELD_DATE) + (operands + rest));
            lemma_take_u32(OP_CERT_FIELD_DATE, operands + rest);
            lemma_dec_cert_operands(slot, name, m, rest);
            assert(enc_expr(e) =~= be32(OP_CERT_FIELD_DATE) + operands);
        },
        _ => {},
    }
}

/// Decoding undoes encoding: an encoded expression in front of `rest` is
/// decoded to the same expression, and `rest` is what stays behind.
pub proof fn lemma_dec_expr(e: ExpressionView, rest: Seq<u8>)
    requires
        expr_fits(e),
    ensures
        decodes_back(e, rest),
    decreases e,
{
    match e {
        ExpressionView::False => lemma_dec_nullary(e, rest),
        ExpressionView::True => lemma_dec_nullary(e, rest),
        ExpressionView::Ident(d) => lemma_dec_ident(d, rest),
        ExpressionView::AppleAnchor => lemma_dec_nullary(e, rest),
        ExpressionView::AnchorHash(slot, hash) => lemma_dec_anchor_hash(slot, hash, rest),
        ExpressionView::InfoKeyValue(key, value) => lemma_dec_info_key_value(key, value, rest),
        ExpressionView::And(a, b) => {
            lemma_dec_expr(*a, enc_expr(*b) + rest);
            lemma_dec_expr(*b, rest);
            lemma_dec_binary(true, *a, *b, rest);
        },
        ExpressionView::Or(a, b) => {
            lemma_dec_expr(*a, enc_expr(*b) + rest);
            lemma_dec_expr(*b, rest);
            lemma_dec_binary(false, *a, *b, rest);
        },
        ExpressionView::CDHash(d) => lemma_dec_cd_hash(d, rest),
        ExpressionView::Not(a) => {
            lemma_dec_expr(*a, rest);
            lemma_dec_not(*a, rest);
        },
        ExpressionView::InfoKeyField(key, m) => lemma_dec_info_key_field(key, m, rest),
        ExpressionView::CertField(slot, name, m) => lemma_dec_cert(e, rest),
        ExpressionView::CertGeneric(slot, name, m) => lemma_dec_cert(e, rest),
        ExpressionView::CertPolicy(slot, name, m) => lemma_dec_cert(e, rest),
        ExpressionView::TrustedCert(slot) => lemma_dec_trusted_cert(slot, rest),
        ExpressionView::TrustedCerts => lemma_dec_nullary(e, rest),
        ExpressionView::CertFieldDate(slot, name, m) => lemma_dec_cert(e, rest),
    }
}

/// Parsing the encoding of an expression gives the expression back, and the
/// encoding is a whole number of four-byte words.
pub proof fn lemma_expression_round_trip(e: ExpressionView)
    requires
        expr_fits(e),
    ensures
        parsed_expr(enc_expr(e)) == Ok::<ExpressionView, CodesignError>(e),
        enc_expr(e).len() % 4 == 0,
{
    lemma_dec_expr(e, Seq::<u8>::empty());
    assert(enc_expr(e) + Seq::<u8>::empty() =~= enc_expr(e));
}

fn slot_to_word(slot: i32) -> (word: u32)
    ensures
        word == slot_word(slot),
{
    proof {
        reveal(slot_word);
    }
    if slot >= 0 {
        slot as u32
    } else {
        (slot as i64 + 0x1_0000_0000) as u32
    }
}

fn word_to_slot(word: u32) -> (slot: i32)
    ensures
        slot == slot_of(word),
{
    proof {
        reveal(slot_of);
    }
    if word < 0x8000_0000 {
        word as i32
    } else {
        (word as i64 - 0x1_0000_0000) as i32
    }
}

fn time_to_word(time: i64) -> (word: u64)
    ensures
        word == time_word(time),
{
    proof {
        reveal(time_word);
    }
    if time >= 0 {
        time as u64
    } else {
        (time as i128 + 0x1_0000_0000_0000_0000) as u64
    }
}

fn word_to_time(word: u64) -> (time: i64)
    ensures
        time == time_of(word),
{
    proof {
        reveal(time_of);
    }
    if word < 0x8000_0000_0000_0000 {
        word as i64
    } else {
        (word as i128 - 0x1_0000_0000_0000_0000) as i64
    }
}

impl DataMatch {
    /// The code that stores this comparison.
    pub fn code(&self) -> (code: u32)
        ensures
            code == data_match_code(*self),
    {
        match self {
            DataMatch::Equal => 1,
            DataMatch::Contains => 2,
            DataMatch::BeginsWith => 3,
            DataMatch::EndsWith => 4,
            DataMatch::LessThan => 5,
            DataMatch::GreaterThan => 6,
            DataMatch::LessEqual => 7,
            DataMatch::GreaterEqual => 8,
        }
    }

    /// The comparison that `code` stores, where it stores one.
    pub fn from_code(code: u32) -> (op: Option<DataMatch>)
        ensures
            op == data_match_of(code),
    {
        if code == 1 {
            Some(DataMatch::Equal)
        } else if code == 2 {
            Some(DataMatch::Contains)
        } else if code == 3 {
            Some(DataMatch::BeginsWith)
        } else if code == 4 {
            Some(DataMatch::EndsWith)
        } else if code == 5 {
            Some(DataMatch::LessThan)
        } else if code == 6 {
            Some(DataMatch::GreaterThan)
        } else if code == 7 {
            Some(DataMatch::LessEqual)
        } else if code == 8 {
            Some(DataMatch::GreaterEqual)
        } else {
            None
        }
    }
}

impl DateMatch {
    /// The code that stores this comparison.
    pub fn code(&self) -> (code: u32)
        ensures
            code == date_match_code(*self),
    {
        match self {
            DateMatch::On => 9,
            DateMatch::Before => 10,
            DateMatch::After => 11,
            DateMatch::OnOrBefore => 12,
            DateMatch::OnOrAfter => 13,
        }
    }

    /// The comparison that `code` stores, where it stores one.
    pub fn from_code(code: u32) -> (op: Option<DateMatch>)
        ensures
            op == date_match_of(code),
    {
        if code == 9 {
            Some(DateMatch::On)
        } else if code == 10 {
            Some(DateMatch::Before)
        } else if code == 11 {
            Some(DateMatch::After)
        } else if code == 12 {
            Some(DateMatch::OnOrBefore)
        } else if code == 13 {
            Some(DateMatch::OnOrAfter)
        } else {
            None
        }
    }
}

fn put_data(out: &mut Vec<u8>, d: &[u8])
    requires
        d@.len() <= u32::MAX,
    ensures
        final(out)@ == old(out)@ + enc_data(d@),
{
    proof {
        reveal(enc_data);
    }
    put_be32(out, d.len() as u32);
    put_bytes(out, d);
    put_zeros(out, padding_for(d.len()));
    assert(out@ =~= old(out)@ + enc_data(d@));
}

fn put_match(out: &mut Vec<u8>, m: &MatchExpression)
    requires
        match_fits(m@),
    ensures
        final(out)@ == old(out)@ + enc_match(m@),
{
    proof {
        reveal(enc_match);
    }
    match m {
        MatchExpression::Exists => {
            put_be32(out, MATCH_EXISTS);
        },
        MatchExpression::Absent => {
            put_be32(out, MATCH_ABSENT);
        },
        MatchExpression::Data(op, value) => {
            put_be32(out, op.code());
            put_data(out, value.as_slice());
            assert(out@ =~= old(out)@ + enc_match(m@));
        },
        MatchExpression::Date(op, time) => {
            put_be32(out, op.code());
            put_be64(out, time_to_word(*time));
            assert(out@ =~= old(out)@ + enc_match(m@));
        },
    }
}

fn put_cert_operands(out: &mut Vec<u8>, slot: i32, name: &Vec<u8>, m: &MatchExpression)
    requires
        name@.len() <= u32::MAX,
        match_fits(m@),
    ensures
        final(out)@ == old(out)@ + be32(slot_word(slot)) + enc_data(name@) + enc_match(m@),
{
    put_be32(out, slot_to_word(slot));
    put_data(out, name.as_slice());
    put_match(out, m);
}

fn put_expr(out: &mut Vec<u8>, e: &Expression)
    requires
        expr_fits(e@),
    ensures
        final(out)@ == old(out)@ + enc_expr(e@),
    decreases e,
{
    match e {
        Expression::False => {
            put_be32(out, OP_FALSE);
        },
        Expression::True => {
            put_be32(out, OP_TRUE);
        },
        Expression::Ident(d) => {
            put_be32(out, OP_IDENT);
            put_data(out, d.as_slice());
            assert(out@ =~= old(out)@ + enc_expr(e@));
        },
        Expression::AppleAnchor => {
            put_be32(out, OP_APPLE_ANCHOR);
        },
        Expression::AnchorHash(slot, hash) => {
            put_be32(out, OP_ANCHOR_HASH);
            put_be32(out, slot_to_word(*slot));
            put_data(out, hash.as_slice());
            assert(out@ =~= old(out)@ + enc_expr(e@));
        },
        Expression::InfoKeyValue(key, value) => {
            put_be32(out, OP_INFO_KEY_VALUE);
            put_data(out, key.as_slice());
            put_data(out, value.as_slice());
            assert(out@ =~= old(out)@ + enc_expr(e@));
        },
        Expression::And(a, b) => {
            put_be32(out, OP_AND);
            put_expr(out, &**a);
            put_expr(out, &**b);
            assert(out@ =~= old(out)@ + enc_expr(e@));
        },
        Expression::Or(a, b) => {
            put_be32(out, OP_OR);
            put_expr(out, &**a);
            put_expr(out, &**b);
            assert(out@ =~= old(out)@ + enc_expr(e@));
        },
        Expression::CDHash(d) => {
            put_be32(out, OP_CD_HASH);
            put_data(out, d.as_slice());
            assert(out@ =~= old(out)@ + enc_expr(e@));
        },
        Expression::Not(a) => {
            put_be32(out, OP_NOT);
            put_expr(out, &**a);
            assert(out@ =~= old(out)@ + enc_expr(e@));
        },
        Expression::InfoKeyField(key, m) => {
            put_be32(out, OP_INFO_KEY_FIELD);
            put_data(out, key.as_slice());
            put_match(out, m);
            assert(out@ =~= old(out)@ + enc_expr(e@));
        },
        Expression::CertField(slot, name, m) => {
            put_be32(out, OP_CERT_FIELD);
            put_cert_operands(out, *slot, name, m);
            assert(out@ =~= old(out)@ + enc_expr(e@));
        },
        Expression::CertGeneric(slot, name, m) => {
            put_be32(out, OP_CERT_GENERIC);
            put_cert_operands(out, *slot, name, m);
            assert(out@ =~= old(out)@ + enc_expr(e@));
        },
        Expression::CertPolicy(slot, name, m) => {
            put_be32(out, OP_CERT_POLICY);
            put_cert_operands(out, *slot, name, m);
            assert(out@ =~= old(out)@ + enc_expr(e@));
        },
        Expression::TrustedCert(slot) => {
            put_be32(out, OP_TRUSTED_CERT);
            put_be32(out, slot_to_word(*slot));
            assert(out@ =~= old(out)@ + enc_expr(e@));
        },
        Expression::TrustedCerts => {
            put_be32(out, OP_TRUSTED_CERTS);
        },
        Expression::CertFieldDate(slot, name, m) => {
            put_be32(out, OP_CERT_FIELD_DATE);
            put_cert_operands(out, *slot, name, m);
            assert(out@ =~= old(out)@ + enc_expr(e@));
        },
    }
}

fn take_word<'a>(data: &'a [u8]) -> (r: Option<(u32, &'a [u8])>)
    ensures
        match r {
            Some((v, rest)) => take_u32(data@) == Some((v, rest@)) && rest@.len() + 4
                == data@.len(),
            None => take_u32(data@) is None,
        },
{
    if data.len() < 4 {
        return None;
    }
    let v = read_be32(data, 0);
    let rest = slice_subrange(data, 4, data.len());
    Some((v, rest))
}

fn take_long<'a>(data: &'a [u8]) -> (r: Option<(u64, &'a [u8])>)
    ensures
        match r {
            Some((v, rest)) => take_u64(data@) == Some((v, rest@)) && rest@.len() + 8
                == data@.len(),
            None => take_u64(data@) is None,
        },
{
    if data.len() < 8 {
        return None;
    }
    let v = read_be64(data, 0);
    let rest = slice_subrange(data, 8, data.len());
    Some((v, rest))
}

fn take_bytes<'a>(data: &'a [u8]) -> (r: Option<(&'a [u8], &'a [u8])>)
    ensures
        match r {
            Some((d, rest)) => take_data(data@) == Some((d@, rest@)) && rest@.len() + 4
                <= data@.len() && d@.len() <= u32::MAX,
            None => take_data(data@) is None,
        },
{
    proof {
        reveal(take_data);
    }
    match take_word(data) {
        None => None,
        Some((n, r)) => {
            let n = n as usize;
            if r.len() < n {
                return None;
            }
            let pad = padding_for(n);
            if r.len() - n < pad {
                return None;
            }
            let d = slice_subrange(r, 0, n);
            let rest = slice_subrange(r, n + pad, r.len());
            Some((d, rest))
        },
    }
}

fn parse_match<'a>(data: &'a [u8]) -> (r: Result<(MatchExpression, &'a [u8]), CodesignError>)
    ensures
        match r {
            Ok((m, rest)) => dec_match(data@) == Ok::<(MatchView, Seq<u8>), CodesignError>(
                (m@, rest@),
            ) && rest@.len() < data@.len() && match_fits(m@),
            Err(e) => dec_match(data@) == Err::<(MatchView, Seq<u8>), CodesignError>(e),
        },
{
    proof {
        reveal(dec_match);
    }
    match take_word(data) {
        None => Err(CodesignError::BlobTruncated),
        Some((code, r)) => {
            if code == MATCH_EXISTS {
                return Ok((MatchExpression::Exists, r));
            }
            if code == MATCH_ABSENT {
                return Ok((MatchExpression::Absent, r));
            }
            match DataMatch::from_code(code) {
                Some(op) => match take_bytes(r) {
                    None => Err(CodesignError::BlobTruncated),
                    Some((value, r1)) => Ok((MatchExpression::Data(op, slice_to_vec(value)), r1)),
                },
                None => match DateMatch::from_code(code) {
                    Some(op) => match take_long(r) {
                        None => Err(CodesignError::BlobTruncated),
                        Some((word, r1)) => Ok((MatchExpression::Date(op, word_to_time(word)), r1)),
                    },
                    None => Err(CodesignError::UnknownRequirementOpcode),
                },
            }
        },
    }
}

fn parse_cert_operands<'a>(data: &'a [u8]) -> (r: Result<
    (i32, Vec<u8>, MatchExpression, &'a [u8]),
    CodesignError,
>)
    ensures
        match r {
            Ok((slot, name, m, rest)) => dec_cert_operands(data@) == Ok::<
                (i32, Seq<u8>, MatchView, Seq<u8>),
                CodesignError,
            >((slot, name@, m@, rest@)) && rest@.len() < data@.len() && match_fits(m@)
                && name@.len() <= u32::MAX,
            Err(e) => dec_cert_operands(data@) == Err::<
                (i32, Seq<u8>, MatchView, Seq<u8>),
                CodesignError,
            >(e),
        },
{
    proof {
        reveal(dec_cert_operands);
    }
    match take_word(data) {
        None => Err(CodesignError::BlobTruncated),
        Some((word, r)) => match take_bytes(r) {
            None => Err(CodesignError::BlobTruncated),
            Some((name, r1)) => match parse_match(r1) {
                Err(e) => Err(e),
                Ok((m, r2)) => Ok((word_to_slot(word), slice_to_vec(name), m, r2)),
            },
        },
    }
}

impl Expression {
    /// Whether every byte string of the expression has a length that a `u32`
    /// holds, so that the expression can be serialized.
    pub fn fits(&self) -> (ok: bool)
        ensures
            ok == expr_fits(self@),
        decreases self,
    {
        match self {
            Expression::False => true,
            Expression::True => true,
            Expression::Ident(s) => s.len() <= 0xffff_ffff,
            Expression::AppleAnchor => true,
            Expression::AnchorHash(_, hash) => hash.len() <= 0xffff_ffff,
            Expression::InfoKeyValue(key, value) => key.len() <= 0xffff_ffff && value.len()
                <= 0xffff_ffff,
            Expression::And(a, b) => a.fits() && b.fits(),
            Expression::Or(a, b) => a.fits() && b.fits(),
            Expression::CDHash(hash) => hash.len() <= 0xffff_ffff,
            Expression::Not(a) => a.fits(),
            Expression::InfoKeyField(key, m) => key.len() <= 0xffff_ffff && m.fits(),
            Expression::CertField(_, name, m) => name.len() <= 0xffff_ffff && m.fits(),
            Expression::CertGeneric(_, name, m) => name.len() <= 0xffff_ffff && m.fits(),
            Expression::CertPolicy(_, name, m) => name.len() <= 0xffff_ffff && m.fits(),
            Expression::TrustedCert(_) => true,
            Expression::TrustedCerts => true,
            Expression::CertFieldDate(_, name, m) => name.len() <= 0xffff_ffff && m.fits(),
        }
    }

    /// The binary form of the expression: a whole number of four-byte words
    /// from which `parse` gives the expression back.
    pub fn serialize(&self) -> (bytes: Vec<u8>)
        requires
            expr_fits(self@),
        ensures
            bytes@ == enc_expr(self@),
            bytes@.len() % 4 == 0,
            parsed_expr(bytes@) == Ok::<ExpressionView, CodesignError>(self@),
    {
        let mut out: Vec<u8> = Vec::new();
        put_expr(&mut out, self);
        proof {
            assert(out@ =~= enc_expr(self@));
            lemma_expression_round_trip(self@);
        }
        out
    }

    /// Reads the expression at the front of `data` and hands back the bytes
    /// behind it.
    ///
    /// Fails with `BlobTruncated` where the input ends inside a node and with
    /// `UnknownRequirementOpcode` where an opcode is outside the known set.
    pub fn parse_prefix<'a>(data: &'a [u8]) -> (r: Result<(Expression, &'a [u8]), CodesignError>)
        ensures
            match r {
                Ok((e, rest)) => dec_expr(data@) == Ok::<(ExpressionView, Seq<u8>), CodesignError>(
                    (e@, rest@),
                ) && rest@.len() < data@.len() && expr_fits(e@),
                Err(e) => dec_expr(data@) == Err::<(ExpressionView, Seq<u8>), CodesignError>(e),
            },
        decreases data@.len(),
    {
        let (op, r) = match take_word(data) {
            None => {
                return Err(CodesignError::BlobTruncated);
            },
            Some(pair) => pair,
        };
        if op == OP_FALSE {
            Ok((Expression::False, r))
        } else if op == OP_TRUE {
            Ok((Expression::True, r))
        } else if op == OP_IDENT {
            match take_bytes(r) {
                None => Err(CodesignError::BlobTruncated),
                Some((d, r1)) => Ok((Expression::Ident(slice_to_vec(d)), r1)),
            }
        } else if op == OP_APPLE_ANCHOR {
            Ok((Expression::AppleAnchor, r))
        } else if op == OP_ANCHOR_HASH {
            match take_word(r) {
                None => Err(CodesignError::BlobTruncated),
                Some((word, r1)) => match take_bytes(r1) {
                    None => Err(CodesignError::BlobTruncated),
                    Some((hash, r2)) => Ok(
                        (Expression::AnchorHash(word_to_slot(word), slice_to_vec(hash)), r2),
                    ),
                },
            }
        } else if op == OP_INFO_KEY_VALUE {
            match take_bytes(r) {
                None => Err(CodesignError::BlobTruncated),
                Some((key, r1)) => match take_bytes(r1) {
                    None => Err(CodesignError::BlobTruncated),
                    Some((value, r2)) => Ok(
                        (Expression::InfoKeyValue(slice_to_vec(key), slice_to_vec(value)), r2),
                    ),
                },
            }
        } else if op == OP_AND || op == OP_OR {
            match Expression::parse_prefix(r) {
                Err(e) => Err(e),
                Ok((a, r1)) => match Expression::parse_prefix(r1) {
                    Err(e) => Err(e),
                    Ok((b, r2)) => if op == OP_AND {
                        Ok((Expression::And(Box::new(a), Box::new(b)), r2))
                    } else {
                        Ok((Expression::Or(Box::new(a), Box::new(b)), r2))
                    },
                },
            }
        } else if op == OP_CD_HASH {
            match take_bytes(r) {
                None => Err(CodesignError::BlobTruncated),
                Some((d, r1)) => Ok((Expression::CDHash(slice_to_vec(d)), r1)),
            }
        } else if op == OP_NOT {
            match Expression::parse_prefix(r) {
                Err(e) => Err(e),
                Ok((a, r1)) => Ok((Expression::Not(Box::new(a)), r1)),
            }
        } else if op == OP_INFO_KEY_FIELD {
            match take_bytes(r) {
                None => Err(CodesignError::BlobTruncated),
                Some((key, r1)) => match parse_match(r1) {
                    Err(e) => Err(e),
                    Ok((m, r2)) => Ok((Expression::InfoKeyField(slice_to_vec(key), m), r2)),
                },
            }
        } else if op == OP_CERT_FIELD {
            match parse_cert_operands(r) {
                Err(e) => Err(e),
                Ok((slot, name, m, r1)) => Ok((Expression::CertField(slot, name, m), r1)),
            }
        } else if op == OP_CERT_GENERIC {
            match parse_cert_operands(r) {
                Err(e) => Err(e),
                Ok((slot, name, m, r1)) => Ok((Expression::CertGeneric(slot, name, m), r1)),
            }
        } else if op == OP_CERT_POLICY {
            match parse_cert_operands(r) {
                Err(e) => Err(e),
                Ok((slot, name, m, r1)) => Ok((Expression::CertPolicy(slot, name, m), r1)),
            }
        } else if op == OP_TRUSTED_CERT {
            match take_word(r) {
                None => Err(CodesignError::BlobTruncated),
                Some((word, r1)) => Ok((Expression::TrustedCert(word_to_slot(word)), r1)),
            }
        } else if op == OP_TRUSTED_CERTS {
            Ok((Expression::TrustedCerts, r))
        } else if op == OP_CERT_FIELD_DATE {
            match parse_cert_operands(r) {
                Err(e) => Err(e),
                Ok((slot, name, m, r1)) => Ok((Expression::CertFieldDate(slot, name, m), r1)),
            }
        } else {
            Err(CodesignError::UnknownRequirementOpcode)
        }
    }

    /// Parses the expression at the front of `data`.
    ///
    /// Fails with `BlobTruncated` where the input ends inside a node and with
    /// `UnknownRequirementOpcode` where an opcode is outside the known set.
    pub fn parse(data: &[u8]) -> (r: Result<Expression, CodesignError>)
        ensures
            match r {
                Ok(e) => parsed_expr(data@) == Ok::<ExpressionView, CodesignError>(e@)
                    && expr_fits(e@),
                Err(e) => parsed_expr(data@) == Err::<ExpressionView, CodesignError>(e),
            },
    {
        match Expression::parse_prefix(data) {
            Err(e) => Err(e),
            Ok((e, _)) => Ok(e),
        }
    }
}

impl MatchExpression {
    /// Whether the byte string of the match, if it has one, has a length that
    /// a `u32` holds.
    pub fn fits(&self) -> (ok: bool)
        ensures
            ok == match_fits(self@),
    {
        match self {
            MatchExpression::Data(_, value) => value.len() <= 0xffff_ffff,
            _ => true,
        }
    }
}

} // verus!
