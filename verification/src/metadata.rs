//! The formula-file header and metadata decisions.
//!
//! A stored formula begins with a version, a content-type token, and a
//! list of metadata records: at most one formula name, and one record
//! per variable binding the variable's dense index to its name. The
//! functions here make every decision those records call for — which
//! stream sections to read, which records to write, which names to ask
//! values for — while the byte-level encoding stays with the
//! interchange-format library at the boundary.

use vstd::prelude::*;

verus! {

/// What a formula file claims to contain.
#[derive(Debug, Clone, Copy, PartialEq, Eq, Structural)]
pub enum ContentKind {
    /// A single formula with configuration and metadata sections.
    SingleFormula,
    /// A bare expression with no further sections.
    RawFormula,
    /// Any content type this evaluator does not handle.
    Other,
}

/// One metadata record of a stored formula.
#[derive(Debug, PartialEq)]
pub enum MetadataEntry {
    /// The formula's display name.
    Name(String),
    /// One variable's dense index and its name.
    VariableName { identifier: usize, name: String },
    /// Any record this evaluator does not interpret.
    Other,
}

/// The mathematical value of a [`MetadataEntry`].
#[verifier::ext_equal]
pub enum MetadataEntryV {
    Name(Seq<char>),
    VariableName { identifier: usize, name: Seq<char> },
    Other,
}

impl View for MetadataEntry {
    type V = MetadataEntryV;

    open spec fn view(&self) -> MetadataEntryV {
        match self {
            MetadataEntry::Name(n) => MetadataEntryV::Name(n@),
            MetadataEntry::VariableName { identifier, name } => MetadataEntryV::VariableName {
                identifier: *identifier,
                name: name@,
            },
            MetadataEntry::Other => MetadataEntryV::Other,
        }
    }
}

/// The views of a sequence of metadata records.
pub open spec fn metadata_view(v: Seq<MetadataEntry>) -> Seq<MetadataEntryV> {
    v.map(|i: int, m: MetadataEntry| m@)
}

/// The name records of a metadata list, in order.
pub open spec fn names_of(s: Seq<MetadataEntryV>) -> Seq<Seq<char>>
    decreases s.len(),
{
    if s.len() == 0 {
        Seq::empty()
    } else {
        names_of(s.drop_last()) + (match s.last() {
            MetadataEntryV::Name(n) => seq![n],
            _ => Seq::<Seq<char>>::empty(),
        })
    }
}

/// The variable-name records of a metadata list, in order, as
/// index/name pairs.
pub open spec fn variables_of(s: Seq<MetadataEntryV>) -> Seq<(usize, Seq<char>)>
    decreases s.len(),
{
    if s.len() == 0 {
        Seq::empty()
    } else {
        variables_of(s.drop_last()) + (match s.last() {
            MetadataEntryV::VariableName { identifier, name } => seq![(identifier, name)],
            _ => Seq::<(usize, Seq<char>)>::empty(),
        })
    }
}

/// The views of a vector of index/name pairs.
pub open spec fn pairs_view(v: Seq<(usize, String)>) -> Seq<(usize, Seq<char>)> {
    v.map(|i: int, p: (usize, String)| (p.0, p.1@))
}

/// Why a stored formula cannot be evaluated as asked.
#[derive(Debug, Clone, Copy, PartialEq, Eq, Structural)]
pub enum EvalSetupError {
    /// The file's format version is not the one this evaluator reads.
    UnsupportedVersion { version: u64 },
    /// The file's content type is not a formula this evaluator reads.
    UnsupportedContentType,
    /// The file carries more than one name record.
    MultipleNameRecords,
}

/// Which sections follow the header and must be read from the stream.
#[derive(Debug, Clone, Copy, PartialEq, Eq, Structural)]
pub struct HeaderPlan {
    pub read_configuration: bool,
    pub read_metadata: bool,
}

/// Decides what a file header calls for: only version 0 is readable; a
/// single-formula file carries configuration and metadata sections, a
/// raw formula carries neither, and anything else is rejected.
pub fn check_header(version: u64, content: ContentKind) -> (r: Result<HeaderPlan, EvalSetupError>)
    ensures
        r == (if version != 0 {
            Err::<HeaderPlan, EvalSetupError>(EvalSetupError::UnsupportedVersion { version })
        } else {
            match content {
                ContentKind::SingleFormula => Ok::<HeaderPlan, EvalSetupError>(
                    HeaderPlan { read_configuration: true, read_metadata: true },
                ),
                ContentKind::RawFormula => Ok::<HeaderPlan, EvalSetupError>(
                    HeaderPlan { read_configuration: false, read_metadata: false },
                ),
                ContentKind::Other => Err::<HeaderPlan, EvalSetupError>(
                    EvalSetupError::UnsupportedContentType,
                ),
            }
        }),
{
    if version != 0 {
        return Err(EvalSetupError::UnsupportedVersion { version });
    }
    match content {
        ContentKind::SingleFormula => Ok(HeaderPlan { read_configuration: true, read_metadata: true }),
        ContentKind::RawFormula => Ok(
            HeaderPlan { read_configuration: false, read_metadata: false },
        ),
        ContentKind::Other => Err(EvalSetupError::UnsupportedContentType),
    }
}

/// Everything the metadata of a well-formed file determines: its display
/// name, if any, and its variables in record order.
#[derive(Debug, PartialEq)]
pub struct EvaluationPlan {
    pub formula_name: Option<String>,
    pub variables: Vec<(usize, String)>,
}

/// Reads the decisions out of a metadata list: rejects more than one
/// name record, keeps the single name if there is one, and lists the
/// variable records in order.
pub fn plan_from_metadata(metadata: Vec<MetadataEntry>) -> (r: Result<
    EvaluationPlan,
    EvalSetupError,
>)
    ensures
        match r {
            Ok(plan) => {
                &&& names_of(metadata_view(metadata@)).len() <= 1
                &&& (match plan.formula_name {
                    Some(n) => names_of(metadata_view(metadata@)) == seq![n@],
                    None => names_of(metadata_view(metadata@)).len() == 0,
                })
                &&& pairs_view(plan.variables@) == variables_of(metadata_view(metadata@))
            },
            Err(e) => e == EvalSetupError::MultipleNameRecords && names_of(
                metadata_view(metadata@),
            ).len() > 1,
        },
{
    let ghost mv = metadata_view(metadata@);
    let mut rest = metadata;
    let mut formula_name: Option<String> = None;
    let mut variables: Vec<(usize, String)> = Vec::new();
    let mut i: usize = 0;
    let length = rest.len();
    proof {
        assert(mv.take(0) =~= Seq::<MetadataEntryV>::empty());
        assert(pairs_view(variables@) =~= Seq::<(usize, Seq<char>)>::empty());
    }
    while i < length
        invariant
            mv == metadata_view(metadata@),
            i <= length,
            length == mv.len(),
            rest@.len() == length - i,
            metadata_view(rest@) == mv.skip(i as int),
            match formula_name {
                Some(n) => names_of(mv.take(i as int)) == seq![n@],
                None => names_of(mv.take(i as int)).len() == 0,
            },
            pairs_view(variables@) == variables_of(mv.take(i as int)),
        decreases length - i,
    {
        let ghost names_before = names_of(mv.take(i as int));
        let ghost vars_before = variables_of(mv.take(i as int));
        proof {
            assert(mv.take(i + 1).drop_last() =~= mv.take(i as int));
            assert(mv.take(i + 1).last() == mv[i as int]);
            assert(metadata_view(rest@)[0] == mv[i as int]);
        }
        let ghost prev_rest = rest@;
        let entry = rest.remove(0);
        proof {
            assert forall|k: int| 0 <= k < rest@.len() implies #[trigger] metadata_view(rest@)[k]
                == mv.skip(i + 1)[k] by {
                assert(rest@[k] == prev_rest[k + 1]);
                assert(metadata_view(prev_rest)[k + 1] == mv.skip(i as int)[k + 1]);
            }
            assert(metadata_view(rest@) =~= mv.skip(i + 1));
            assert(entry@ == metadata_view(prev_rest)[0]);
            assert(entry@ == mv[i as int]);
        }
        match entry {
            MetadataEntry::Name(n) => {
                proof {
                    assert(names_of(mv.take(i + 1)) =~= names_before.push(n@));
                    assert(variables_of(mv.take(i + 1)) =~= vars_before);
                }
                if formula_name.is_some() {
                    proof {
                        assert(names_of(mv.take(i + 1)).len() > 1);
                        lemma_names_of_prefix_monotonic(mv, i + 1, mv.len() as int);
                        assert(mv.take(mv.len() as int) =~= mv);
                    }
                    return Err(EvalSetupError::MultipleNameRecords);
                }
                formula_name = Some(n);
            },
            MetadataEntry::VariableName { identifier, name } => {
                proof {
                    assert(names_of(mv.take(i + 1)) =~= names_before);
                }
                variables.push((identifier, name));
                proof {
                    let pushed = (identifier, variables@[variables@.len() - 1].1@);
                    assert(pairs_view(variables@) =~= vars_before.push(pushed));
                    assert(variables_of(mv.take(i + 1)) =~= vars_before.push(pushed));
                }
            },
            MetadataEntry::Other => {
                proof {
                    assert(names_of(mv.take(i + 1)) =~= names_before);
                    assert(variables_of(mv.take(i + 1)) =~= vars_before);
                }
            },
        }
        i = i + 1;
    }
    proof {
        assert(mv.take(length as int) =~= mv);
    }
    Ok(EvaluationPlan { formula_name, variables })
}

/// More records never lose a name: the name count of a prefix bounds the
/// whole list's from below.
proof fn lemma_names_of_prefix_monotonic(s: Seq<MetadataEntryV>, i: int, j: int)
    requires
        0 <= i <= j <= s.len(),
    ensures
        names_of(s.take(i)).len() <= names_of(s.take(j)).len(),
    decreases j - i,
{
    if i < j {
        lemma_names_of_prefix_monotonic(s, i, j - 1);
        assert(s.take(j).drop_last() =~= s.take(j - 1));
    }
}

/// The metadata records that export one parse's variable table: record
/// `i` binds index `i` to the `i`-th discovered name, in exactly the
/// table's order.
pub fn variable_metadata(variables: &Vec<String>) -> (r: Vec<MetadataEntry>)
    ensures
        r@.len() == variables@.len(),
        forall|k: int|
            0 <= k < r@.len() ==> r@[k]@ == (MetadataEntryV::VariableName {
                identifier: k as usize,
                name: variables@[k]@,
            }),
{
    let mut records: Vec<MetadataEntry> = Vec::new();
    let mut i: usize = 0;
    let length = variables.len();
    while i < length
        invariant
            i <= length,
            length == variables@.len(),
            records@.len() == i,
            forall|k: int|
                0 <= k < i ==> records@[k]@ == (MetadataEntryV::VariableName {
                    identifier: k as usize,
                    name: variables@[k]@,
                }),
        decreases length - i,
    {
        let name = variables[i].clone();
        records.push(MetadataEntry::VariableName { identifier: i, name });
        i = i + 1;
    }
    records
}

/// The whole metadata list a stored formula carries: the optional name
/// record first, then one record per variable in table order.
pub fn formula_metadata(name: Option<String>, variables: &Vec<String>) -> (r: Vec<MetadataEntry>)
    ensures
        match name {
            Some(n) => {
                &&& r@.len() == variables@.len() + 1
                &&& r@[0]@ == MetadataEntryV::Name(n@)
                &&& forall|k: int|
                    1 <= k < r@.len() ==> r@[k]@ == (MetadataEntryV::VariableName {
                        identifier: (k - 1) as usize,
                        name: variables@[k - 1]@,
                    })
            },
            None => {
                &&& r@.len() == variables@.len()
                &&& forall|k: int|
                    0 <= k < r@.len() ==> r@[k]@ == (MetadataEntryV::VariableName {
                        identifier: k as usize,
                        name: variables@[k]@,
                    })
            },
        },
{
    let mut records: Vec<MetadataEntry> = Vec::new();
    let has_name = name.is_some();
    match name {
        Some(n) => {
            records.push(MetadataEntry::Name(n));
        },
        None => {},
    }
    let variable_records = variable_metadata(variables);
    let mut i: usize = 0;
    let length = variable_records.len();
    let ghost base = records@;
    let mut rest = variable_records;
    while i < length
        invariant
            i <= length,
            length == variables@.len(),
            rest@.len() == length - i,
            forall|k: int|
                0 <= k < rest@.len() ==> rest@[k]@ == (MetadataEntryV::VariableName {
                    identifier: (k + i) as usize,
                    name: variables@[k + i]@,
                }),
            records@.len() == base.len() + i,
            records@.take(base.len() as int) == base,
            forall|k: int|
                0 <= k < i ==> records@[base.len() + k]@ == (MetadataEntryV::VariableName {
                    identifier: k as usize,
                    name: variables@[k]@,
                }),
            base == (if has_name {
                records@.take(1)
            } else {
                Seq::<MetadataEntry>::empty()
            }),
            has_name ==> base.len() == 1,
            !has_name ==> base.len() == 0,
            has_name ==> base[0]@ == records@[0]@,
        decreases length - i,
    {
        let ghost prev_rest = rest@;
        let entry = rest.remove(0);
        proof {
            assert(entry@ == prev_rest[0]@);
            assert forall|k: int| 0 <= k < rest@.len() implies rest@[k]@
                == (MetadataEntryV::VariableName {
                identifier: (k + i + 1) as usize,
                name: variables@[k + i + 1]@,
            }) by {
                assert(rest@[k] == prev_rest[k + 1]);
            }
        }
        records.push(entry);
        proof {
            assert(records@.take(base.len() as int) =~= base);
        }
        i = i + 1;
    }
    records
}

/// The variable names a consumer must supply values for, in record
/// order: the names of the variable-name records.
pub fn variable_names_to_query(metadata: &Vec<MetadataEntry>) -> (r: Vec<String>)
    ensures
        crate::variables::names_view(r@) == variables_of(metadata_view(metadata@)).map(
            |k: int, p: (usize, Seq<char>)| p.1,
        ),
{
    let ghost mv = metadata_view(metadata@);
    let mut names: Vec<String> = Vec::new();
    let mut i: usize = 0;
    let length = metadata.len();
    proof {
        assert(mv.take(0) =~= Seq::<MetadataEntryV>::empty());
        assert(crate::variables::names_view(names@) =~= variables_of(mv.take(0)).map(
            |k: int, p: (usize, Seq<char>)| p.1,
        ));
    }
    while i < length
        invariant
            mv == metadata_view(metadata@),
            i <= length,
            length == mv.len(),
            crate::variables::names_view(names@) == variables_of(mv.take(i as int)).map(
                |k: int, p: (usize, Seq<char>)| p.1,
            ),
        decreases length - i,
    {
        proof {
            assert(mv.take(i + 1).drop_last() =~= mv.take(i as int));
            assert(mv.take(i + 1).last() == mv[i as int]);
            assert(mv[i as int] == metadata@[i as int]@);
        }
        let ghost vlist_before = variables_of(mv.take(i as int));
        let ghost names_before = names@;
        match &metadata[i] {
            MetadataEntry::VariableName { identifier, name } => {
                names.push(name.clone());
                proof {
                    let f = |k: int, p: (usize, Seq<char>)| p.1;
                    assert(variables_of(mv.take(i + 1)) =~= vlist_before.push(
                        (*identifier, name@),
                    ));
                    assert(crate::variables::names_view(names@) =~= crate::variables::names_view(
                        names_before,
                    ).push(name@));
                    assert(vlist_before.push((*identifier, name@)).map(f) =~= vlist_before.map(
                        f,
                    ).push(name@));
                    assert(crate::variables::names_view(names@) =~= variables_of(
                        mv.take(i + 1),
                    ).map(f));
                }
            },
            _ => {
                proof {
                    assert(variables_of(mv.take(i + 1)) =~= variables_of(mv.take(i as int)));
                }
            },
        }
        i = i + 1;
    }
    proof {
        assert(mv.take(length as int) =~= mv);
    }
    names
}

} // verus!
