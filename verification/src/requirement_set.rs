//! Requirement blobs and the set of requirements of a signature.
//!
//! A requirement blob frames one encoded expression. A requirement set is a
//! container whose index names, for each requirement type, the requirement
//! blob of that type.

use vstd::prelude::*;
use crate::blob::{
    framed, lemma_blob_round_trip, lemma_framed_header, MAGIC_REQUIREMENT, MAGIC_REQUIREMENT_SET,
    read_blob_as, unframed_as, write_blob,
};
use crate::error::CodesignError;
use crate::requirement::{enc_expr, expr_fits, Expression, ExpressionView, parsed_expr};
use crate::requirement_codec::lemma_expression_round_trip;
use crate::superblob::{
    assemblable, assemble_container, assembled, BlobEntry, container_len, disassembled, Entries,
    entries_view, lemma_container_round_trip, parse_container, self_delimiting,
};

verus! {

/// The code that stands for the host requirement.
pub const REQUIREMENT_HOST: u32 = 1;

/// The code that stands for the guest requirement.
pub const REQUIREMENT_GUEST: u32 = 2;

/// The code that stands for the designated requirement.
pub const REQUIREMENT_DESIGNATED: u32 = 3;

/// The code that stands for the library requirement.
pub const REQUIREMENT_LIBRARY: u32 = 4;

/// The code that stands for the plugin requirement.
pub const REQUIREMENT_PLUGIN: u32 = 5;

/// One requirement of a set: what kind it is, and its expression.
#[derive(Debug, PartialEq, Eq)]
pub struct Requirement {
    /// The code of the requirement type.
    pub kind: u32,
    pub expression: Expression,
}

/// The requirements of a signature, in the order of the set's index.
#[derive(Debug, PartialEq, Eq)]
pub struct RequirementSet {
    pub requirements: Vec<Requirement>,
}

/// The mathematical value of a [`RequirementSet`]: the type and the
/// expression of every requirement, in order.
pub type RequirementsView = Seq<(u32, ExpressionView)>;

/// The types and expressions of a list of requirements.
pub open spec fn requirements_view(requirements: Seq<Requirement>) -> RequirementsView {
    Seq::new(requirements.len(), |i: int| (requirements[i].kind, requirements[i].expression@))
}

impl View for RequirementSet {
    type V = RequirementsView;

    open spec fn view(&self) -> RequirementsView {
        requirements_view(self.requirements@)
    }
}

/// The bytes of the requirement blob of an expression.
pub open spec fn requirement_blob(e: ExpressionView) -> Seq<u8> {
    framed(MAGIC_REQUIREMENT, enc_expr(e))
}

/// What reading a requirement blob from the front of `bytes` gives.
pub open spec fn parsed_requirement(bytes: Seq<u8>) -> Result<ExpressionView, CodesignError> {
    match unframed_as(bytes, MAGIC_REQUIREMENT) {
        Err(e) => Err(e),
        Ok(payload) => parsed_expr(payload),
    }
}

/// Whether the expression can be framed: it can be encoded, and its
/// encoding with the header has a length that a `u32` holds.
pub open spec fn blob_fits(e: ExpressionView) -> bool {
    expr_fits(e) && enc_expr(e).len() + 8 <= u32::MAX
}

/// The entries of the container of a requirement set.
pub open spec fn set_entries(set: RequirementsView) -> Entries {
    Seq::new(set.len(), |i: int| (set[i].0, requirement_blob(set[i].1)))
}

/// Whether the set can be written: every expression can be framed, and the
/// container has a length that a `u32` holds.
pub open spec fn set_fits(set: RequirementsView) -> bool {
    &&& forall|i: int| 0 <= i < set.len() ==> blob_fits((#[trigger] set[i]).1)
    &&& assemblable(set_entries(set))
}

/// The bytes of the blob of a requirement set.
pub open spec fn serialized_set(set: RequirementsView) -> Seq<u8> {
    assembled(MAGIC_REQUIREMENT_SET, set_entries(set))
}

/// The requirements that the first `n` entries hold.
pub open spec fn parsed_requirements(entries: Entries, n: int) -> Result<
    RequirementsView,
    CodesignError,
>
    decreases n,
{
    if n <= 0 {
        Ok(Seq::empty())
    } else {
        match parsed_requirements(entries, n - 1) {
            Err(e) => Err(e),
            Ok(before) => match parsed_requirement(entries[n - 1].1) {
                Err(e) => Err(e),
                Ok(expression) => Ok(before.push((entries[n - 1].0, expression))),
            },
        }
    }
}

/// What reading a requirement set from the front of `bytes` gives: the
/// errors of the container first, then those of the first requirement that
/// cannot be read.
pub open spec fn parsed_set(bytes: Seq<u8>) -> Result<RequirementsView, CodesignError> {
    match disassembled(bytes, MAGIC_REQUIREMENT_SET) {
        Err(e) => Err(e),
        Ok(entries) => parsed_requirements(entries, entries.len() as int),
    }
}

/// Reading the requirement blob of an expression gives the expression back.
pub proof fn lemma_requirement_round_trip(e: ExpressionView)
    requires
        blob_fits(e),
    ensures
        parsed_requirement(requirement_blob(e)) == Ok::<ExpressionView, CodesignError>(e),
        self_delimiting(requirement_blob(e)),
{
    lemma_blob_round_trip(MAGIC_REQUIREMENT, enc_expr(e), Seq::<u8>::empty());
    assert(requirement_blob(e) + Seq::<u8>::empty() =~= requirement_blob(e));
    lemma_expression_round_trip(e);
    lemma_framed_header(MAGIC_REQUIREMENT, enc_expr(e));
}

/// The entries of a set that can be written hold, up to `n`, the
/// requirements of the set.
pub proof fn lemma_parsed_requirements(set: RequirementsView, n: int)
    requires
        set_fits(set),
        0 <= n <= set.len(),
    ensures
        parsed_requirements(set_entries(set), n) == Ok::<RequirementsView, CodesignError>(
            set.subrange(0, n),
        ),
    decreases n,
{
    if n <= 0 {
        assert(set.subrange(0, n) =~= Seq::<(u32, ExpressionView)>::empty());
    } else {
        lemma_parsed_requirements(set, n - 1);
        lemma_requirement_round_trip(set[n - 1].1);
        assert(set.subrange(0, n - 1).push(set[n - 1]) =~= set.subrange(0, n));
    }
}

/// Reading the blob of a requirement set gives the set back: every type
/// with its expression, in the same order.
pub proof fn lemma_set_round_trip(set: RequirementsView)
    requires
        set_fits(set),
    ensures
        parsed_set(serialized_set(set)) == Ok::<RequirementsView, CodesignError>(set),
{
    let entries = set_entries(set);
    assert forall|i: int| 0 <= i < entries.len() implies self_delimiting(
        #[trigger] entries[i].1,
    ) by {
        lemma_requirement_round_trip(set[i].1);
    }
    lemma_container_round_trip(MAGIC_REQUIREMENT_SET, entries, Seq::<u8>::empty());
    assert(serialized_set(set) + Seq::<u8>::empty() =~= serialized_set(set));
    lemma_parsed_requirements(set, set.len() as int);
    assert(set.subrange(0, set.len() as int) =~= set);
}

/// Once a requirement fails to parse, the failure is the result for every
/// longer prefix of the entries.
pub proof fn lemma_requirement_error_stays(entries: Entries, k: int, n: int)
    requires
        0 <= k <= n,
        parsed_requirements(entries, k) is Err,
    ensures
        parsed_requirements(entries, n) == parsed_requirements(entries, k),
    decreases n,
{
    if n > k {
        lemma_requirement_error_stays(entries, k, n - 1);
    }
}

impl Expression {
    /// Whether the expression can be framed as a requirement blob.
    pub fn blob_fits(&self) -> (ok: bool)
        ensures
            ok == blob_fits(self@),
    {
        if !self.fits() {
            return false;
        }
        let bytes = self.serialize();
        bytes.len() <= 0xffff_fff7
    }

    /// The bytes of the requirement blob of the expression.
    pub fn to_blob_bytes(&self) -> (bytes: Vec<u8>)
        requires
            blob_fits(self@),
        ensures
            bytes@ == requirement_blob(self@),
            parsed_requirement(bytes@) == Ok::<ExpressionView, CodesignError>(self@),
    {
        let payload = self.serialize();
        proof {
            lemma_requirement_round_trip(self@);
        }
        write_blob(MAGIC_REQUIREMENT, payload.as_slice())
    }

    /// Reads the requirement blob at the front of `data`.
    ///
    /// The framing errors of a blob come first, then those of the
    /// expression.
    pub fn from_blob_bytes(data: &[u8]) -> (result: Result<Expression, CodesignError>)
        ensures
            match result {
                Ok(e) => parsed_requirement(data@) == Ok::<ExpressionView, CodesignError>(e@),
                Err(e) => parsed_requirement(data@) == Err::<ExpressionView, CodesignError>(e),
            },
    {
        match read_blob_as(data, MAGIC_REQUIREMENT) {
            Err(e) => Err(e),
            Ok(payload) => Expression::parse(payload),
        }
    }
}

impl RequirementSet {
    /// The entries of the container of the set, where every expression can
    /// be framed.
    fn entries(&self) -> (entries: Option<Vec<BlobEntry>>)
        ensures
            match entries {
                Some(list) => entries_view(list@) == set_entries(self@) && forall|i: int|
                    0 <= i < self@.len() ==> blob_fits((#[trigger] self@[i]).1),
                None => exists|i: int| 0 <= i < self@.len() && !blob_fits((#[trigger] self@[i]).1),
            },
    {
        let mut list: Vec<BlobEntry> = Vec::new();
        let mut i: usize = 0;
        while i < self.requirements.len()
            invariant
                i <= self.requirements@.len(),
                list@.len() == i,
                forall|k: int| 0 <= k < i ==> blob_fits((#[trigger] self@[k]).1),
                forall|k: int|
                    0 <= k < i ==> (#[trigger] list@[k]).slot == self@[k].0 && list@[k].data@
                        == requirement_blob(self@[k].1),
            decreases self.requirements@.len() - i,
        {
            let requirement = &self.requirements[i];
            assert(self@[i as int] == (requirement.kind, requirement.expression@));
            if !requirement.expression.blob_fits() {
                assert(!blob_fits(self@[i as int].1));
                return None;
            }
            let data = requirement.expression.to_blob_bytes();
            list.push(BlobEntry { slot: requirement.kind, data });
            i = i + 1;
        }
        assert(entries_view(list@) =~= set_entries(self@));
        Some(list)
    }

    /// The bytes of the blob of the set, where the set can be written.
    pub fn to_blob_bytes(&self) -> (bytes: Option<Vec<u8>>)
        ensures
            bytes is Some <==> set_fits(self@),
            bytes matches Some(b) ==> b@ == serialized_set(self@) && parsed_set(b@) == Ok::<
                RequirementsView,
                CodesignError,
            >(self@),
    {
        let entries = match self.entries() {
            None => {
                return None;
            },
            Some(entries) => entries,
        };
        if container_len(&entries).is_none() {
            return None;
        }
        proof {
            lemma_set_round_trip(self@);
        }
        Some(assemble_container(MAGIC_REQUIREMENT_SET, &entries))
    }

    /// Reads the requirement set at the front of `data`.
    ///
    /// The errors of the container come first, then those of the first
    /// requirement that cannot be read.
    pub fn from_blob_bytes(data: &[u8]) -> (result: Result<RequirementSet, CodesignError>)
        ensures
            match result {
                Ok(set) => parsed_set(data@) == Ok::<RequirementsView, CodesignError>(set@),
                Err(e) => parsed_set(data@) == Err::<RequirementsView, CodesignError>(e),
            },
    {
        let entries = match parse_container(data, MAGIC_REQUIREMENT_SET) {
            Err(e) => {
                return Err(e);
            },
            Ok(entries) => entries,
        };
        let ghost view = entries_view(entries@);
        let mut requirements: Vec<Requirement> = Vec::new();
        let mut i: usize = 0;
        assert(requirements_view(requirements@) =~= Seq::<(u32, ExpressionView)>::empty());
        while i < entries.len()
            invariant
                i <= entries@.len(),
                view == entries_view(entries@),
                disassembled(data@, MAGIC_REQUIREMENT_SET) == Ok::<Entries, CodesignError>(view),
                parsed_requirements(view, i as int) == Ok::<RequirementsView, CodesignError>(
                    requirements_view(requirements@),
                ),
            decreases entries@.len() - i,
        {
            let ghost before = requirements_view(requirements@);
            let expression = match Expression::from_blob_bytes(entries[i].data.as_slice()) {
                Err(e) => {
                    proof {
                        assert(parsed_requirements(view, i as int + 1) == Err::<
                            RequirementsView,
                            CodesignError,
                        >(e));
                        lemma_requirement_error_stays(view, i as int + 1, entries@.len() as int);
                    }
                    return Err(e);
                },
                Ok(expression) => expression,
            };
            let ghost parsed = expression@;
            requirements.push(Requirement { kind: entries[i].slot, expression });
            assert(requirements_view(requirements@) =~= before.push((view[i as int].0, parsed)));
            i = i + 1;
        }
        Ok(RequirementSet { requirements })
    }
}

/// The name of a requirement type; `unknown` for a code that stands for
/// none.
pub open spec fn kind_name(kind: u32) -> Seq<char> {
    if kind == REQUIREMENT_HOST {
        "host"@
    } else if kind == REQUIREMENT_GUEST {
        "guest"@
    } else if kind == REQUIREMENT_DESIGNATED {
        "designated"@
    } else if kind == REQUIREMENT_LIBRARY {
        "library"@
    } else if kind == REQUIREMENT_PLUGIN {
        "plugin"@
    } else {
        "unknown"@
    }
}

/// The name of a requirement type; `unknown` for a code that stands for
/// none.
pub fn requirement_kind_name(kind: u32) -> (name: &'static str)
    ensures
        name@ == kind_name(kind),
{
    if kind == REQUIREMENT_HOST {
        "host"
    } else if kind == REQUIREMENT_GUEST {
        "guest"
    } else if kind == REQUIREMENT_DESIGNATED {
        "designated"
    } else if kind == REQUIREMENT_LIBRARY {
        "library"
    } else if kind == REQUIREMENT_PLUGIN {
        "plugin"
    } else {
        "unknown"
    }
}

} // verus!
