//! Graph entities carried as structures.
use vstd::prelude::*;

use crate::error::CodecError;
use crate::message::dict_model;
use crate::value::{lemma_models_of, model_of, models_of, Value, ValueModel};

verus! {

pub const SIGNATURE_RELATIONSHIP: u8 = 0x52;

/// A relationship between two nodes: its id, the ids of its ends, its type and properties.
#[derive(Debug)]
pub struct Relationship {
    pub rel_identity: i64,
    pub start_node_identity: i64,
    pub end_node_identity: i64,
    pub rel_type: String,
    pub properties: Vec<(String, Value)>,
}

impl Relationship {
    pub fn new(
        rel_identity: i64,
        start_node_identity: i64,
        end_node_identity: i64,
        rel_type: String,
        properties: Vec<(String, Value)>,
    ) -> (r: Relationship)
        ensures
            r.rel_identity == rel_identity,
            r.start_node_identity == start_node_identity,
            r.end_node_identity == end_node_identity,
            r.rel_type@ == rel_type@,
            r.properties@ == properties@,
    {
        Relationship {
            rel_identity,
            start_node_identity,
            end_node_identity,
            rel_type,
            properties,
        }
    }

    /// The structure a relationship is written as.
    pub open spec fn model(&self) -> ValueModel {
        ValueModel::Structure(
            SIGNATURE_RELATIONSHIP,
            seq![
                ValueModel::Integer(self.rel_identity),
                ValueModel::Integer(self.start_node_identity),
                ValueModel::Integer(self.end_node_identity),
                ValueModel::String(self.rel_type@),
                dict_model(self.properties@),
            ],
        )
    }

    /// The relationship a value holds: a structure with the relationship signature and
    /// three integers, a string and a map as fields. An error names what is wrong: no
    /// structure, another signature, another field count, or the first field of another kind.
    pub fn try_from_value(v: Value) -> (r: Result<Relationship, CodecError>)
        ensures
            r matches Ok(rel) ==> rel.model() == v@,
            r is Ok <==> relationship_error(v@) is None,
            r matches Err(e) ==> relationship_error(v@) == Some(e),
    {
        let ghost vm = v@;
        match v {
            Value::Structure { signature, fields } => {
                proof {
                    lemma_models_of(fields@);
                }
                if signature != SIGNATURE_RELATIONSHIP {
                    return Err(CodecError::InvalidSignature(signature));
                }
                if fields.len() != 5 {
                    return Err(
                        CodecError::InvalidStructureArity {
                            signature: SIGNATURE_RELATIONSHIP,
                            got: fields.len(),
                            expected: 5,
                        },
                    );
                }
                let mut k: usize = 0;
                while k < 5
                    invariant
                        fields@.len() == 5,
                        k <= 5,
                        vm == v@,
                        vm == ValueModel::Structure(SIGNATURE_RELATIONSHIP, models_of(fields@)),
                        models_of(fields@).len() == 5,
                        forall|j: int| 0 <= j < 5 ==> #[trigger] models_of(fields@)[j] == model_of(fields@[j]),
                        forall|j: int| 0 <= j < k ==> kind_at(j, #[trigger] models_of(fields@)[j]),
                    decreases 5 - k,
                {
                    if !rel_field_ok(&fields[k], k) {
                        return Err(
                            CodecError::InvalidConversion {
                                signature: SIGNATURE_RELATIONSHIP,
                                field: k,
                            },
                        );
                    }
                    k = k + 1;
                }
                let ghost fs0 = fields@;
                let mut fields = fields;
                let properties = fields.pop().unwrap();
                let rel_type = fields.pop().unwrap();
                let end = fields.pop().unwrap();
                let start = fields.pop().unwrap();
                let id = fields.pop().unwrap();
                match (id, start, end, rel_type, properties) {
                    (
                        Value::Integer(i),
                        Value::Integer(s),
                        Value::Integer(e),
                        Value::String(t),
                        Value::Dict(p),
                    ) => {
                        let rel = Relationship {
                            rel_identity: i,
                            start_node_identity: s,
                            end_node_identity: e,
                            rel_type: t,
                            properties: p,
                        };
                        proof {
                            if let ValueModel::Structure(_, fs) = rel.model() {
                                assert(fs =~= models_of(fs0));
                            }
                        }
                        Ok(rel)
                    },
                    _ => Err(CodecError::NotAStructure),
                }
            },
            _ => Err(CodecError::NotAStructure),
        }
    }
}

pub const SIGNATURE_NODE: u8 = 0x4E;

pub const SIGNATURE_UNBOUND_RELATIONSHIP: u8 = 0x72;

pub const SIGNATURE_PATH: u8 = 0x50;

/// Whether a value is a node: its id, its labels and its properties.
pub open spec fn is_node(v: ValueModel) -> bool {
    v matches ValueModel::Structure(sig, fs) && sig == SIGNATURE_NODE && fs.len() == 3
        && fs[0] is Integer && fs[1] is List && fs[2] is Dict
}

/// Whether a value is a relationship without its ends: its id, type and properties.
pub open spec fn is_unbound_relationship(v: ValueModel) -> bool {
    v matches ValueModel::Structure(sig, fs) && sig == SIGNATURE_UNBOUND_RELATIONSHIP && fs.len()
        == 3 && fs[0] is Integer && fs[1] is String && fs[2] is Dict
}

/// The absolute value of an integer.
pub open spec fn abs(x: int) -> int {
    if x < 0 {
        -x
    } else {
        x
    }
}

/// Whether a path's sequence walks its lists: pairs of a relationship index (1-based,
/// negative for a relationship walked backwards) and a node index (0 is the start node).
pub open spec fn valid_sequence(sequence: Seq<i64>, nodes: int, rels: int) -> bool {
    &&& sequence.len() % 2 == 0
    &&& forall|k: int|
        0 <= k < sequence.len() ==> if k % 2 == 0 {
            1 <= abs(#[trigger] sequence[k] as int) <= rels
        } else {
            0 <= sequence[k] < nodes
        }
}

/// Whether `sequence` is a valid walk over `nodes` nodes and `rels` relationships.
pub fn path_sequence_valid(sequence: &[i64], nodes: usize, rels: usize) -> (r: bool)
    ensures
        r == valid_sequence(sequence@, nodes as int, rels as int),
{
    if sequence.len() % 2 != 0 {
        return false;
    }
    let mut k: usize = 0;
    while k < sequence.len()
        invariant
            k <= sequence@.len(),
            sequence@.len() % 2 == 0,
            forall|j: int|
                0 <= j < k ==> if j % 2 == 0 {
                    1 <= abs(#[trigger] sequence@[j] as int) <= rels
                } else {
                    0 <= sequence@[j] < nodes
                },
        decreases sequence@.len() - k,
    {
        let x = sequence[k];
        let ok = if k % 2 == 0 {
            if x == i64::MIN {
                rels as u64 >= 0x8000_0000_0000_0000u64
            } else if x < 0 {
                ((-x) as u64) <= rels as u64
            } else {
                x > 0 && (x as u64) <= rels as u64
            }
        } else {
            x >= 0 && (x as u64) < nodes as u64
        };
        if !ok {
            assert(!valid_sequence(sequence@, nodes as int, rels as int)) by {
                assert(sequence@[k as int] == x);
            }
            return false;
        }
        k = k + 1;
    }
    true
}

/// A path: its nodes, its relationships without their ends, and the walk over them.
#[derive(Debug)]
pub struct Path {
    pub nodes: Vec<Value>,
    pub relationships: Vec<Value>,
    pub sequence: Vec<i64>,
}

/// The models of integers.
pub open spec fn integer_models(xs: Seq<i64>) -> Seq<ValueModel> {
    Seq::new(xs.len(), |i: int| ValueModel::Integer(xs[i]))
}

/// The error naming field `field` of a path.
pub open spec fn path_field_error(field: usize) -> CodecError {
    CodecError::InvalidConversion { signature: SIGNATURE_PATH, field }
}

/// Whether every element of a list is a node.
pub open spec fn all_nodes(ns: Seq<ValueModel>) -> bool {
    forall|i: int| 0 <= i < ns.len() ==> is_node(#[trigger] ns[i])
}

/// Whether every element of a list is a relationship without its ends.
pub open spec fn all_unbound(rs: Seq<ValueModel>) -> bool {
    forall|i: int| 0 <= i < rs.len() ==> is_unbound_relationship(#[trigger] rs[i])
}

/// Whether every element of a list is an integer.
pub open spec fn all_integers(xs: Seq<ValueModel>) -> bool {
    forall|i: int| 0 <= i < xs.len() ==> #[trigger] xs[i] is Integer
}

/// Why a value is no path, if it is not one: no structure, another signature, another
/// field count, or the first field that is no list, holds an element of another kind, or
/// (the walk) leaves the lists.
pub open spec fn path_error(v: ValueModel) -> Option<CodecError> {
    match v {
        ValueModel::Structure(sig, fs) => if sig != SIGNATURE_PATH {
            Some(CodecError::InvalidSignature(sig))
        } else if fs.len() != 3 {
            Some(
                CodecError::InvalidStructureArity {
                    signature: SIGNATURE_PATH,
                    got: fs.len() as usize,
                    expected: 3,
                },
            )
        } else if !(fs[0] is List) {
            Some(path_field_error(0))
        } else if !(fs[1] is List) {
            Some(path_field_error(1))
        } else if !(fs[2] is List) {
            Some(path_field_error(2))
        } else if !all_nodes(fs[0]->List_0) {
            Some(path_field_error(0))
        } else if !all_unbound(fs[1]->List_0) {
            Some(path_field_error(1))
        } else if !(all_integers(fs[2]->List_0) && valid_sequence(
            Seq::new(fs[2]->List_0.len(), |i: int| fs[2]->List_0[i]->Integer_0),
            fs[0]->List_0.len() as int,
            fs[1]->List_0.len() as int,
        )) {
            Some(path_field_error(2))
        } else {
            None
        },
        _ => Some(CodecError::NotAStructure),
    }
}

impl Path {
    /// The structure a path is written as.
    pub open spec fn model(&self) -> ValueModel {
        ValueModel::Structure(
            SIGNATURE_PATH,
            seq![
                ValueModel::List(models_of(self.nodes@)),
                ValueModel::List(models_of(self.relationships@)),
                ValueModel::List(integer_models(self.sequence@)),
            ],
        )
    }

    /// The path a value holds; `InvalidConversion` where it is no path, or where its walk
    /// leaves its lists.
    pub fn try_from_value(v: Value) -> (r: Result<Path, CodecError>)
        ensures
            r matches Ok(p) ==> p.model() == v@,
            r is Ok <==> path_error(v@) is None,
            r matches Err(e) ==> path_error(v@) == Some(e),
    {
        let err0 = CodecError::InvalidConversion { signature: SIGNATURE_PATH, field: 0 };
        let err1 = CodecError::InvalidConversion { signature: SIGNATURE_PATH, field: 1 };
        let err2 = CodecError::InvalidConversion { signature: SIGNATURE_PATH, field: 2 };
        let ghost vm = v@;
        match v {
            Value::Structure { signature, fields } => {
                proof {
                    lemma_models_of(fields@);
                }
                if signature != SIGNATURE_PATH {
                    return Err(CodecError::InvalidSignature(signature));
                }
                if fields.len() != 3 {
                    return Err(
                        CodecError::InvalidStructureArity {
                            signature: SIGNATURE_PATH,
                            got: fields.len(),
                            expected: 3,
                        },
                    );
                }
                let mut f: usize = 0;
                while f < 3
                    invariant
                        fields@.len() == 3,
                        f <= 3,
                        vm == v@,
                        vm == ValueModel::Structure(SIGNATURE_PATH, models_of(fields@)),
                        models_of(fields@).len() == 3,
                        forall|j: int| 0 <= j < 3 ==> #[trigger] models_of(fields@)[j] == model_of(fields@[j]),
                        forall|j: int| 0 <= j < f ==> #[trigger] models_of(fields@)[j] is List,
                    decreases 3 - f,
                {
                    let is_list = match &fields[f] {
                        Value::List(_) => true,
                        _ => false,
                    };
                    if !is_list {
                        return Err(CodecError::InvalidConversion { signature: SIGNATURE_PATH, field: f });
                    }
                    f = f + 1;
                }
                let ghost fs0 = fields@;
                let mut fields = fields;
                let xs = fields.pop().unwrap();
                let rs = fields.pop().unwrap();
                let ns = fields.pop().unwrap();
                match (ns, rs, xs) {
                    (Value::List(nodes), Value::List(relationships), Value::List(xs)) => {
                        let ghost lists = seq![
                            ValueModel::List(models_of(nodes@)),
                            ValueModel::List(models_of(relationships@)),
                            ValueModel::List(models_of(xs@)),
                        ];
                        assert(models_of(fs0) =~= lists);
                        let mut i: usize = 0;
                        while i < nodes.len()
                            invariant
                                i <= nodes@.len(),
                                vm == ValueModel::Structure(SIGNATURE_PATH, lists),
                                vm == v@,
                                err0 == (CodecError::InvalidConversion {
                                    signature: SIGNATURE_PATH,
                                    field: 0,
                                }),
                                lists == seq![
                                    ValueModel::List(models_of(nodes@)),
                                    ValueModel::List(models_of(relationships@)),
                                    ValueModel::List(models_of(xs@)),
                                ],
                                forall|j: int| 0 <= j < i ==> is_node(#[trigger] model_of(nodes@[j])),
                            decreases nodes@.len() - i,
                        {
                            if !node_shaped(&nodes[i]) {
                                proof {
                                    lemma_models_of(nodes@);
                                    assert(models_of(nodes@)[i as int] == model_of(nodes@[i as int]));
                                }
                                return Err(err0);
                            }
                            i = i + 1;
                        }
                        let mut i: usize = 0;
                        while i < relationships.len()
                            invariant
                                forall|j: int| 0 <= j < nodes@.len() ==> is_node(#[trigger] model_of(nodes@[j])),
                                i <= relationships@.len(),
                                vm == ValueModel::Structure(SIGNATURE_PATH, lists),
                                vm == v@,
                                err1 == (CodecError::InvalidConversion {
                                    signature: SIGNATURE_PATH,
                                    field: 1,
                                }),
                                lists == seq![
                                    ValueModel::List(models_of(nodes@)),
                                    ValueModel::List(models_of(relationships@)),
                                    ValueModel::List(models_of(xs@)),
                                ],
                                forall|j: int|
                                    0 <= j < i ==> is_unbound_relationship(
                                        #[trigger] model_of(relationships@[j]),
                                    ),
                            decreases relationships@.len() - i,
                        {
                            if !unbound_relationship_shaped(&relationships[i]) {
                                proof {
                                    lemma_models_of(nodes@);
                                    assert forall|j: int| 0 <= j < nodes@.len() implies is_node(
                                        #[trigger] models_of(nodes@)[j],
                                    ) by {
                                        assert(models_of(nodes@)[j] == model_of(nodes@[j]));
                                    }
                                    lemma_models_of(relationships@);
                                    assert(models_of(relationships@)[i as int] == model_of(
                                        relationships@[i as int],
                                    ));
                                }
                                return Err(err1);
                            }
                            i = i + 1;
                        }
                        let mut sequence: Vec<i64> = Vec::new();
                        let mut i: usize = 0;
                        while i < xs.len()
                            invariant
                                forall|j: int| 0 <= j < nodes@.len() ==> is_node(#[trigger] model_of(nodes@[j])),
                                forall|j: int|
                                    0 <= j < relationships@.len() ==> is_unbound_relationship(
                                        #[trigger] model_of(relationships@[j]),
                                    ),
                                i <= xs@.len(),
                                vm == ValueModel::Structure(SIGNATURE_PATH, lists),
                                vm == v@,
                                err2 == (CodecError::InvalidConversion {
                                    signature: SIGNATURE_PATH,
                                    field: 2,
                                }),
                                lists == seq![
                                    ValueModel::List(models_of(nodes@)),
                                    ValueModel::List(models_of(relationships@)),
                                    ValueModel::List(models_of(xs@)),
                                ],
                                sequence@.len() == i,
                                forall|j: int|
                                    0 <= j < i ==> #[trigger] model_of(xs@[j])
                                        == ValueModel::Integer(sequence@[j]),
                            decreases xs@.len() - i,
                        {
                            match &xs[i] {
                                Value::Integer(x) => {
                                    sequence.push(*x);
                                },
                                _ => {
                                    proof {
                                        lemma_models_of(nodes@);
                                        assert forall|j: int| 0 <= j < nodes@.len() implies is_node(
                                            #[trigger] models_of(nodes@)[j],
                                        ) by {
                                            assert(models_of(nodes@)[j] == model_of(nodes@[j]));
                                        }
                                        lemma_models_of(relationships@);
                                        assert forall|j: int|
                                            0 <= j < relationships@.len() implies is_unbound_relationship(
                                            #[trigger] models_of(relationships@)[j],
                                        ) by {
                                            assert(models_of(relationships@)[j] == model_of(
                                                relationships@[j],
                                            ));
                                        }
                                        lemma_models_of(xs@);
                                        assert(models_of(xs@)[i as int] == model_of(xs@[i as int]));
                                    }
                                    return Err(err2);
                                },
                            }
                            i = i + 1;
                        }
                        proof {
                            lemma_models_of(nodes@);
                            lemma_models_of(relationships@);
                            lemma_models_of(xs@);
                        }
                        let ghost ms = models_of(xs@);
                        assert(Seq::new(ms.len(), |i: int| ms[i]->Integer_0) =~= sequence@);
                        if !path_sequence_valid(sequence.as_slice(), nodes.len(), relationships.len()) {
                            return Err(err2);
                        }
                        let p = Path { nodes, relationships, sequence };
                        proof {
                            assert(integer_models(p.sequence@) =~= models_of(xs@));
                            if let ValueModel::Structure(_, fs) = p.model() {
                                assert(fs =~= models_of(fs0));
                            }
                        }
                        Ok(p)
                    },
                    _ => Err(CodecError::NotAStructure),
                }
            },
            _ => Err(CodecError::NotAStructure),
        }
    }
}

/// Whether a value is shaped as a node.
fn node_shaped(v: &Value) -> (r: bool)
    ensures
        r == is_node(v@),
{
    match v {
        Value::Structure { signature, fields } => {
            proof {
                lemma_models_of(fields@);
            }
            *signature == SIGNATURE_NODE && fields.len() == 3 && matches!(fields[0], Value::Integer(_))
                && matches!(fields[1], Value::List(_)) && matches!(fields[2], Value::Dict(_))
        },
        _ => false,
    }
}

/// Whether a value is shaped as a relationship without its ends.
fn unbound_relationship_shaped(v: &Value) -> (r: bool)
    ensures
        r == is_unbound_relationship(v@),
{
    match v {
        Value::Structure { signature, fields } => {
            proof {
                lemma_models_of(fields@);
            }
            *signature == SIGNATURE_UNBOUND_RELATIONSHIP && fields.len() == 3 && matches!(
                fields[0],
                Value::Integer(_)
            ) && matches!(fields[1], Value::String(_)) && matches!(fields[2], Value::Dict(_))
        },
        _ => false,
    }
}

/// Whether field `k` of a relationship is of the kind its position asks for.
pub open spec fn kind_at(k: int, f: ValueModel) -> bool {
    if k < 3 {
        f is Integer
    } else if k == 3 {
        f is String
    } else {
        f is Dict
    }
}

/// The first field of a relationship of another kind than its position asks for.
pub open spec fn first_bad_kind(fs: Seq<ValueModel>) -> Option<usize> {
    if !kind_at(0, fs[0]) {
        Some(0)
    } else if !kind_at(1, fs[1]) {
        Some(1)
    } else if !kind_at(2, fs[2]) {
        Some(2)
    } else if !kind_at(3, fs[3]) {
        Some(3)
    } else if !kind_at(4, fs[4]) {
        Some(4)
    } else {
        None
    }
}

/// Whether field `k` of a relationship is of the kind its position asks for.
fn rel_field_ok(f: &Value, k: usize) -> (r: bool)
    ensures
        r == kind_at(k as int, f@),
{
    match f {
        Value::Integer(_) => k < 3,
        Value::String(_) => k == 3,
        Value::Dict(_) => k > 3,
        _ => false,
    }
}

/// Why a value is no relationship, if it is not one.
pub open spec fn relationship_error(v: ValueModel) -> Option<CodecError> {
    match v {
        ValueModel::Structure(sig, fs) => if sig != SIGNATURE_RELATIONSHIP {
            Some(CodecError::InvalidSignature(sig))
        } else if fs.len() != 5 {
            Some(
                CodecError::InvalidStructureArity {
                    signature: SIGNATURE_RELATIONSHIP,
                    got: fs.len() as usize,
                    expected: 5,
                },
            )
        } else {
            match first_bad_kind(fs) {
                Some(k) => Some(
                    CodecError::InvalidConversion { signature: SIGNATURE_RELATIONSHIP, field: k },
                ),
                None => None,
            }
        },
        _ => Some(CodecError::NotAStructure),
    }
}

} // verus!
