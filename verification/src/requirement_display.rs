//! The readable form of a code requirement expression, in the notation of
//! the requirement language.

use vstd::prelude::*;
use crate::requirement::{
    DataMatch, DateMatch, Expression, ExpressionView, MatchExpression, MatchView,
};
use crate::text::{
    escaped, hex_text, put_escaped, put_hex, put_signed_decimal, put_text, signed_decimal,
    to_string,
};

verus! {

/// The name of a certificate slot: `leaf` for the signing certificate,
/// `root` for the anchor, and else the number.
pub open spec fn slot_text(slot: i32) -> Seq<char> {
    if slot == 0 {
        "leaf"@
    } else if slot == -1 {
        "root"@
    } else {
        signed_decimal(slot as int)
    }
}

/// The sign of a comparison with bytes, with the spaces around it.
pub open spec fn data_sign(op: DataMatch) -> Seq<char> {
    match op {
        DataMatch::Equal => " = "@,
        DataMatch::Contains => " ~ "@,
        DataMatch::BeginsWith => " = "@,
        DataMatch::EndsWith => " = "@,
        DataMatch::LessThan => " < "@,
        DataMatch::GreaterThan => " > "@,
        DataMatch::LessEqual => " <= "@,
        DataMatch::GreaterEqual => " >= "@,
    }
}

/// The sign of a comparison with a time, with the spaces around it.
pub open spec fn date_sign(op: DateMatch) -> Seq<char> {
    match op {
        DateMatch::On => " = "@,
        DateMatch::Before => " < "@,
        DateMatch::After => " > "@,
        DateMatch::OnOrBefore => " <= "@,
        DateMatch::OnOrAfter => " >= "@,
    }
}

/// The star that stands for the rest of the field in front of a value that
/// the field ends with.
pub open spec fn leading_star(op: DataMatch) -> Seq<char> {
    if op == DataMatch::EndsWith {
        "*"@
    } else {
        ""@
    }
}

/// The star that stands for the rest of the field behind a value that the
/// field begins with.
pub open spec fn trailing_star(op: DataMatch) -> Seq<char> {
    if op == DataMatch::BeginsWith {
        "*"@
    } else {
        ""@
    }
}

/// The text of a comparison with bytes: the sign and the value between
/// quotes, with a star where the rest of the field goes.
pub open spec fn data_match_text(op: DataMatch, value: Seq<u8>) -> Seq<char> {
    data_sign(op) + "\""@ + leading_star(op) + escaped(value, value.len() as int)
        + trailing_star(op) + "\""@
}

/// The text of a comparison with a time: the sign and the time in seconds
/// between quotes.
pub open spec fn date_match_text(op: DateMatch, time: i64) -> Seq<char> {
    date_sign(op) + "timestamp \""@ + signed_decimal(time as int) + "\""@
}

/// The text of a match, as it follows the field that it tests.
pub open spec fn match_text(m: MatchView) -> Seq<char> {
    match m {
        MatchView::Exists => " /* exists */"@,
        MatchView::Absent => " absent"@,
        MatchView::Data(op, value) => data_match_text(op, value),
        MatchView::Date(op, time) => date_match_text(op, time),
    }
}

/// The text of a certificate field: the slot, the field between brackets
/// behind `prefix`, and the match.
pub open spec fn certificate_text(
    slot: i32,
    prefix: Seq<char>,
    field: Seq<char>,
    m: MatchView,
) -> Seq<char> {
    "certificate "@ + slot_text(slot) + "["@ + prefix + field + "]"@ + match_text(m)
}

/// The readable form of an expression.
pub open spec fn display_text(e: ExpressionView) -> Seq<char>
    decreases e, 0int,
{
    match e {
        ExpressionView::False => "never"@,
        ExpressionView::True => "always"@,
        ExpressionView::Ident(s) => "identifier \""@ + escaped(s, s.len() as int) + "\""@,
        ExpressionView::AppleAnchor => "anchor apple"@,
        ExpressionView::AnchorHash(slot, hash) => "certificate "@ + slot_text(slot) + " = H\""@
            + hex_text(hash) + "\""@,
        ExpressionView::InfoKeyValue(key, value) => "info["@ + escaped(key, key.len() as int)
            + "] = \""@ + escaped(value, value.len() as int) + "\""@,
        ExpressionView::And(a, b) => operand_text(*a, true) + " and "@ + operand_text(*b, true),
        ExpressionView::Or(a, b) => display_text(*a) + " or "@ + display_text(*b),
        ExpressionView::CDHash(hash) => "cdhash H\""@ + hex_text(hash) + "\""@,
        ExpressionView::Not(a) => "! "@ + operand_text(*a, false),
        ExpressionView::InfoKeyField(key, m) => "info["@ + escaped(key, key.len() as int) + "]"@
            + match_text(m),
        ExpressionView::CertField(slot, field, m) => certificate_text(
            slot,
            ""@,
            escaped(field, field.len() as int),
            m,
        ),
        ExpressionView::CertGeneric(slot, oid, m) => certificate_text(
            slot,
            "field."@,
            hex_text(oid),
            m,
        ),
        ExpressionView::CertPolicy(slot, oid, m) => certificate_text(
            slot,
            "policy."@,
            hex_text(oid),
            m,
        ),
        ExpressionView::TrustedCert(slot) => "certificate "@ + slot_text(slot) + " trusted"@,
        ExpressionView::TrustedCerts => "anchor trusted"@,
        ExpressionView::CertFieldDate(slot, oid, m) => certificate_text(
            slot,
            "timestamp."@,
            hex_text(oid),
            m,
        ),
    }
}

/// The text of an operand: between parentheses where it is a disjunction,
/// or, unless `of_and`, a conjunction; else as it is.
pub open spec fn operand_text(e: ExpressionView, of_and: bool) -> Seq<char>
    decreases e, 1int,
{
    if e is Or || (e is And && !of_and) {
        "("@ + display_text(e) + ")"@
    } else {
        display_text(e)
    }
}

fn put_slot(out: &mut Vec<char>, slot: i32)
    ensures
        final(out)@ == old(out)@ + slot_text(slot),
{
    if slot == 0 {
        put_text(out, "leaf");
    } else if slot == -1 {
        put_text(out, "root");
    } else {
        put_signed_decimal(out, slot as i64);
    }
}

fn put_data_sign(out: &mut Vec<char>, op: DataMatch)
    ensures
        final(out)@ == old(out)@ + data_sign(op),
{
    match op {
        DataMatch::Equal => put_text(out, " = "),
        DataMatch::Contains => put_text(out, " ~ "),
        DataMatch::BeginsWith => put_text(out, " = "),
        DataMatch::EndsWith => put_text(out, " = "),
        DataMatch::LessThan => put_text(out, " < "),
        DataMatch::GreaterThan => put_text(out, " > "),
        DataMatch::LessEqual => put_text(out, " <= "),
        DataMatch::GreaterEqual => put_text(out, " >= "),
    }
}

fn put_date_sign(out: &mut Vec<char>, op: DateMatch)
    ensures
        final(out)@ == old(out)@ + date_sign(op),
{
    match op {
        DateMatch::On => put_text(out, " = "),
        DateMatch::Before => put_text(out, " < "),
        DateMatch::After => put_text(out, " > "),
        DateMatch::OnOrBefore => put_text(out, " <= "),
        DateMatch::OnOrAfter => put_text(out, " >= "),
    }
}

fn put_star(out: &mut Vec<char>, wanted: bool)
    ensures
        final(out)@ == old(out)@ + (if wanted {
            "*"@
        } else {
            ""@
        }),
{
    if wanted {
        put_text(out, "*");
    } else {
        put_text(out, "");
    }
}

fn put_data_match(out: &mut Vec<char>, op: DataMatch, value: &Vec<u8>)
    ensures
        final(out)@ == old(out)@ + data_match_text(op, value@),
{
    put_data_sign(out, op);
    put_text(out, "\"");
    put_star(out, op == DataMatch::EndsWith);
    put_escaped(out, value.as_slice());
    put_star(out, op == DataMatch::BeginsWith);
    put_text(out, "\"");
    assert(out@ =~= old(out)@ + data_match_text(op, value@));
}

fn put_date_match(out: &mut Vec<char>, op: DateMatch, time: i64)
    ensures
        final(out)@ == old(out)@ + date_match_text(op, time),
{
    put_date_sign(out, op);
    put_text(out, "timestamp \"");
    put_signed_decimal(out, time);
    put_text(out, "\"");
    assert(out@ =~= old(out)@ + date_match_text(op, time));
}

fn put_match(out: &mut Vec<char>, m: &MatchExpression)
    ensures
        final(out)@ == old(out)@ + match_text(m@),
{
    match m {
        MatchExpression::Exists => put_text(out, " /* exists */"),
        MatchExpression::Absent => put_text(out, " absent"),
        MatchExpression::Data(op, value) => put_data_match(out, *op, value),
        MatchExpression::Date(op, time) => put_date_match(out, *op, *time),
    }
}

fn put_certificate(
    out: &mut Vec<char>,
    slot: i32,
    prefix: &str,
    field: &Vec<u8>,
    as_hex: bool,
    m: &MatchExpression,
)
    ensures
        final(out)@ == old(out)@ + certificate_text(
            slot,
            prefix@,
            if as_hex {
                hex_text(field@)
            } else {
                escaped(field@, field@.len() as int)
            },
            m@,
        ),
{
    put_text(out, "certificate ");
    put_slot(out, slot);
    put_text(out, "[");
    put_text(out, prefix);
    if as_hex {
        put_hex(out, field.as_slice());
    } else {
        put_escaped(out, field.as_slice());
    }
    put_text(out, "]");
    put_match(out, m);
    assert(out@ =~= old(out)@ + certificate_text(
        slot,
        prefix@,
        if as_hex {
            hex_text(field@)
        } else {
            escaped(field@, field@.len() as int)
        },
        m@,
    ));
}

fn put_operand(out: &mut Vec<char>, e: &Expression, of_and: bool)
    ensures
        final(out)@ == old(out)@ + operand_text(e@, of_and),
    decreases e, 1int,
{
    let wrap = match e {
        Expression::Or(_, _) => true,
        Expression::And(_, _) => !of_and,
        _ => false,
    };
    if wrap {
        put_text(out, "(");
        put_display(out, e);
        put_text(out, ")");
        assert(out@ =~= old(out)@ + operand_text(e@, of_and));
    } else {
        put_display(out, e);
    }
}

fn put_display(out: &mut Vec<char>, e: &Expression)
    ensures
        final(out)@ == old(out)@ + display_text(e@),
    decreases e, 0int,
{
    match e {
        Expression::False => put_text(out, "never"),
        Expression::True => put_text(out, "always"),
        Expression::Ident(s) => {
            put_text(out, "identifier \"");
            put_escaped(out, s.as_slice());
            put_text(out, "\"");
            assert(out@ =~= old(out)@ + display_text(e@));
        },
        Expression::AppleAnchor => put_text(out, "anchor apple"),
        Expression::AnchorHash(slot, hash) => {
            put_text(out, "certificate ");
            put_slot(out, *slot);
            put_text(out, " = H\"");
            put_hex(out, hash.as_slice());
            put_text(out, "\"");
            assert(out@ =~= old(out)@ + display_text(e@));
        },
        Expression::InfoKeyValue(key, value) => {
            put_text(out, "info[");
            put_escaped(out, key.as_slice());
            put_text(out, "] = \"");
            put_escaped(out, value.as_slice());
            put_text(out, "\"");
            assert(out@ =~= old(out)@ + display_text(e@));
        },
        Expression::And(a, b) => {
            put_operand(out, &**a, true);
            put_text(out, " and ");
            put_operand(out, &**b, true);
            assert(out@ =~= old(out)@ + display_text(e@));
        },
        Expression::Or(a, b) => {
            put_display(out, &**a);
            put_text(out, " or ");
            put_display(out, &**b);
            assert(out@ =~= old(out)@ + display_text(e@));
        },
        Expression::CDHash(hash) => {
            put_text(out, "cdhash H\"");
            put_hex(out, hash.as_slice());
            put_text(out, "\"");
            assert(out@ =~= old(out)@ + display_text(e@));
        },
        Expression::Not(a) => {
            put_text(out, "! ");
            put_operand(out, &**a, false);
            assert(out@ =~= old(out)@ + display_text(e@));
        },
        Expression::InfoKeyField(key, m) => {
            put_text(out, "info[");
            put_escaped(out, key.as_slice());
            put_text(out, "]");
            put_match(out, m);
            assert(out@ =~= old(out)@ + display_text(e@));
        },
        Expression::CertField(slot, field, m) => {
            put_certificate(out, *slot, "", field, false, m);
        },
        Expression::CertGeneric(slot, oid, m) => {
            put_certificate(out, *slot, "field.", oid, true, m);
        },
        Expression::CertPolicy(slot, oid, m) => {
            put_certificate(out, *slot, "policy.", oid, true, m);
        },
        Expression::TrustedCert(slot) => {
            put_text(out, "certificate ");
            put_slot(out, *slot);
            put_text(out, " trusted");
            assert(out@ =~= old(out)@ + display_text(e@));
        },
        Expression::TrustedCerts => put_text(out, "anchor trusted"),
        Expression::CertFieldDate(slot, oid, m) => {
            put_certificate(out, *slot, "timestamp.", oid, true, m);
        },
    }
}

impl Expression {
    /// The readable form of the expression, in the notation of the
    /// requirement language: `anchor apple and identifier "com.example"`.
    pub fn display(&self) -> (text: String)
        ensures
            text@ == display_text(self@),
    {
        let mut out: Vec<char> = Vec::new();
        put_display(&mut out, self);
        assert(out@ =~= display_text(self@));
        to_string(&out)
    }
}

} // verus!
