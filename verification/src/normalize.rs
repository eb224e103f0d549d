use vstd::prelude::*;
use vstd::string::*;
use crate::hexstr::{decode_selector, spec_selector_of};
use crate::records::{views_of, FetchError, InterfaceRecord, RecordModel};
use crate::strutil::chars_to_string;

verus! {

/// One raw structure as the decompilation engine reports it, reduced to the
/// fields this pipeline reads. Structures other than functions carry nothing:
/// the normalizer drops them unread.
pub struct RawFunction {
    pub name: String,
    pub inputs: Vec<String>,
    pub state_mutability: String,
}

pub enum RawStructure {
    Function(RawFunction),
    Event,
    Error,
    Constructor,
}

pub struct RawFunctionModel {
    pub name: Seq<char>,
    pub inputs: Seq<Seq<char>>,
    pub state_mutability: Seq<char>,
}

pub enum RawStructureModel {
    Function(RawFunctionModel),
    Event,
    Error,
    Constructor,
}

impl View for RawFunction {
    type V = RawFunctionModel;

    open spec fn view(&self) -> RawFunctionModel {
        RawFunctionModel {
            name: self.name@,
            inputs: self.inputs@.map_values(|s: String| s@),
            state_mutability: self.state_mutability@,
        }
    }
}

impl View for RawStructure {
    type V = RawStructureModel;

    open spec fn view(&self) -> RawStructureModel {
        match self {
            RawStructure::Function(f) => RawStructureModel::Function(f@),
            RawStructure::Event => RawStructureModel::Event,
            RawStructure::Error => RawStructureModel::Error,
            RawStructure::Constructor => RawStructureModel::Constructor,
        }
    }
}

pub open spec fn struct_views(rs: Seq<RawStructure>) -> Seq<RawStructureModel> {
    rs.map_values(|r: RawStructure| r@)
}

pub open spec fn string_views(ss: Seq<String>) -> Seq<Seq<char>> {
    ss.map_values(|s: String| s@)
}

/// The engine's marker for names it could not resolve to a symbol.
pub open spec fn unresolved_marker() -> Seq<char> {
    "Unresolved_"@
}

pub open spec fn starts_with_marker(s: Seq<char>) -> bool {
    s.len() >= 11 && s.subrange(0, 11) == unresolved_marker()
}

/// The name with every occurrence of the marker removed, scanning left to
/// right.
pub open spec fn spec_sanitize(s: Seq<char>) -> Seq<char>
    decreases s.len(),
{
    if s.len() == 0 {
        s
    } else if starts_with_marker(s) {
        spec_sanitize(s.skip(11))
    } else {
        seq![s[0]] + spec_sanitize(s.skip(1))
    }
}

fn marker_at(s: &str, n: usize, i: usize) -> (r: bool)
    requires
        n == s@.len(),
        i <= n,
    ensures
        r == starts_with_marker(s@.skip(i as int)),
{
    proof {
        reveal_strlit("Unresolved_");
    }
    if n - i < 11 {
        proof {
            assert(s@.skip(i as int).len() < 11);
        }
        return false;
    }
    let m = "Unresolved_";
    let mut k: usize = 0;
    while k < 11
        invariant
            n == s@.len(),
            i + 11 <= n,
            k <= 11,
            m@ == unresolved_marker(),
            m@.len() == 11,
            forall|j: int| 0 <= j < k ==> s@[i + j] == unresolved_marker()[j],
        decreases 11 - k,
    {
        let c = s.get_char(i + k);
        let d = m.get_char(k);
        if c != d {
            proof {
                if starts_with_marker(s@.skip(i as int)) {
                    assert(s@.skip(i as int).subrange(0, 11)[k as int] == s@[i + k]);
                }
            }
            return false;
        }
        k += 1;
    }
    proof {
        assert(s@.skip(i as int).subrange(0, 11) =~= unresolved_marker());
    }
    true
}

/// Remove every occurrence of the engine's unresolved-name marker.
pub fn sanitize_name(s: &str) -> (r: String)
    ensures
        r@ == spec_sanitize(s@),
{
    let n = s.unicode_len();
    let mut out: Vec<char> = Vec::new();
    let mut i: usize = 0;
    proof {
        assert(s@.skip(0) =~= s@);
    }
    while i < n
        invariant
            n == s@.len(),
            i <= n,
            spec_sanitize(s@) == out@ + spec_sanitize(s@.skip(i as int)),
        decreases n - i,
    {
        let ghost pre = out@;
        if marker_at(s, n, i) {
            proof {
                assert(s@.skip(i as int).skip(11) =~= s@.skip(i as int + 11));
            }
            i = i + 11;
        } else {
            let c = s.get_char(i);
            out.push(c);
            proof {
                assert(s@.skip(i as int)[0] == s@[i as int]);
                assert(s@.skip(i as int).skip(1) =~= s@.skip(i as int + 1));
                assert(out@ =~= pre + seq![s@[i as int]]);
                assert(pre + (seq![s@[i as int]] + spec_sanitize(s@.skip(i as int + 1))) =~= (pre
                    + seq![s@[i as int]]) + spec_sanitize(s@.skip(i as int + 1)));
            }
            i = i + 1;
        }
    }
    proof {
        assert(s@.skip(n as int) =~= Seq::<char>::empty());
        assert(spec_sanitize(Seq::<char>::empty()).len() == 0);
        assert(spec_sanitize(s@) =~= out@);
    }
    chars_to_string(&out)
}

/// A parameter type tag reported as plain `bytes` is replaced by the
/// placeholder tag `unknown`; every other tag passes through unchanged.
pub open spec fn substituted_type(t: Seq<char>) -> Seq<char> {
    if t == "bytes"@ {
        "unknown"@
    } else {
        t
    }
}

pub open spec fn joined_types(inputs: Seq<Seq<char>>) -> Seq<char>
    decreases inputs.len(),
{
    if inputs.len() == 0 {
        Seq::empty()
    } else if inputs.len() == 1 {
        substituted_type(inputs[0])
    } else {
        substituted_type(inputs[0]) + ","@ + joined_types(inputs.drop_first())
    }
}

/// The rendered signature: the substituted parameter tags, comma-joined and
/// wrapped in parentheses.
pub open spec fn spec_signature(inputs: Seq<Seq<char>>) -> Seq<char> {
    "("@ + joined_types(inputs) + ")"@
}

proof fn lemma_joined_push(inputs: Seq<Seq<char>>, t: Seq<char>)
    ensures
        joined_types(inputs.push(t)) == if inputs.len() == 0 {
            substituted_type(t)
        } else {
            joined_types(inputs) + ","@ + substituted_type(t)
        },
    decreases inputs.len(),
{
    if inputs.len() == 0 {
        assert(inputs.push(t).len() == 1);
        assert(inputs.push(t)[0] == t);
    } else {
        let p = inputs.push(t);
        assert(p[0] == inputs[0]);
        assert(p.drop_first() =~= inputs.drop_first().push(t));
        lemma_joined_push(inputs.drop_first(), t);
        if inputs.len() == 1 {
            assert(joined_types(p) == substituted_type(inputs[0]) + ","@ + substituted_type(t));
        } else {
            assert(substituted_type(inputs[0]) + ","@ + (joined_types(inputs.drop_first()) + ","@
                + substituted_type(t)) =~= (substituted_type(inputs[0]) + ","@ + joined_types(
                inputs.drop_first(),
            )) + ","@ + substituted_type(t));
        }
    }
}

/// Render the signature of a list of raw parameter type tags.
pub fn build_signature(inputs: &Vec<String>) -> (r: String)
    ensures
        r@ == spec_signature(string_views(inputs@)),
{
    proof {
        reveal_strlit("(");
        reveal_strlit(")");
        reveal_strlit(",");
        reveal_strlit("bytes");
        reveal_strlit("unknown");
    }
    let mut out = String::from_str("(");
    let bytes_tag: String = String::from_str("bytes");
    let mut i: usize = 0;
    proof {
        assert(string_views(inputs@).take(0) =~= Seq::<Seq<char>>::empty());
        assert(out@ =~= "("@ + joined_types(Seq::<Seq<char>>::empty()));
    }
    while i < inputs.len()
        invariant
            i <= inputs@.len(),
            bytes_tag@ == "bytes"@,
            out@ == "("@ + joined_types(string_views(inputs@).take(i as int)),
        decreases inputs@.len() - i,
    {
        let ghost vs = string_views(inputs@);
        let ghost pre = out@;
        if i > 0 {
            out.append(",");
        }
        if inputs[i] == bytes_tag {
            out.append("unknown");
        } else {
            out.append(inputs[i].as_str());
        }
        proof {
            assert(vs.take(i as int + 1) =~= vs.take(i as int).push(vs[i as int]));
            assert(vs[i as int] == inputs@[i as int]@);
            lemma_joined_push(vs.take(i as int), vs[i as int]);
            if i > 0 {
                assert(out@ =~= pre + ","@ + substituted_type(vs[i as int]));
                assert(("("@ + joined_types(vs.take(i as int))) + ","@ + substituted_type(
                    vs[i as int],
                ) =~= "("@ + (joined_types(vs.take(i as int)) + ","@ + substituted_type(
                    vs[i as int],
                )));
            } else {
                assert(vs.take(0) =~= Seq::<Seq<char>>::empty());
                assert(out@ =~= pre + substituted_type(vs[i as int]));
                assert(("("@ + joined_types(vs.take(0))) + substituted_type(vs[i as int]) =~= "("@
                    + substituted_type(vs[i as int]));
            }
            assert(out@ =~= "("@ + joined_types(vs.take(i as int + 1)));
        }
        i += 1;
    }
    out.append(")");
    proof {
        assert(string_views(inputs@).take(inputs@.len() as int) =~= string_views(inputs@));
    }
    out
}

/// The record one raw function yields: `None` exactly when its sanitized name
/// does not spell a 4-byte selector in hexadecimal.
pub open spec fn spec_record_of(f: RawFunctionModel) -> Option<RecordModel> {
    let sanitized = spec_sanitize(f.name);
    match spec_selector_of(sanitized) {
        Some(sel) => Some(
            RecordModel {
                signature: spec_signature(f.inputs),
                selector: sel,
                name: sanitized,
                is_static: f.state_mutability == "view"@,
                is_payable: f.state_mutability == "payable"@,
                is_constructor: false,
            },
        ),
        None => None,
    }
}

/// The ordered records of the function structures, in the order the engine
/// emitted them; events, errors and constructors are dropped. `None` exactly
/// when some function's sanitized name does not spell a 4-byte selector.
pub open spec fn spec_normalize(rs: Seq<RawStructureModel>) -> Option<Seq<RecordModel>>
    decreases rs.len(),
{
    if rs.len() == 0 {
        Some(Seq::empty())
    } else {
        let rest = spec_normalize(rs.drop_first());
        match rs[0] {
            RawStructureModel::Function(f) => match (spec_record_of(f), rest) {
                (Some(r), Some(tail)) => Some(seq![r] + tail),
                _ => None,
            },
            _ => rest,
        }
    }
}

proof fn lemma_normalize_push(rs: Seq<RawStructureModel>, x: RawStructureModel)
    ensures
        spec_normalize(rs.push(x)) == (match spec_normalize(rs) {
            Some(recs) => match x {
                RawStructureModel::Function(f) => match spec_record_of(f) {
                    Some(r) => Some(recs.push(r)),
                    None => None::<Seq<RecordModel>>,
                },
                _ => Some(recs),
            },
            None => None::<Seq<RecordModel>>,
        }),
    decreases rs.len(),
{
    if rs.len() == 0 {
        assert(rs.push(x).drop_first() =~= Seq::<RawStructureModel>::empty());
        assert(rs.push(x)[0] == x);
        assert(spec_normalize(Seq::<RawStructureModel>::empty()) == Some(
            Seq::<RecordModel>::empty(),
        ));
        match x {
            RawStructureModel::Function(f) => {
                match spec_record_of(f) {
                    Some(r) => {
                        assert(seq![r] + Seq::<RecordModel>::empty()
                            =~= Seq::<RecordModel>::empty().push(r));
                    },
                    None => {},
                }
            },
            _ => {},
        }
    } else {
        let p = rs.push(x);
        assert(p[0] == rs[0]);
        assert(p.drop_first() =~= rs.drop_first().push(x));
        lemma_normalize_push(rs.drop_first(), x);
        match rs[0] {
            RawStructureModel::Function(f0) => {
                match spec_record_of(f0) {
                    Some(r0) => {
                        match spec_normalize(rs.drop_first()) {
                            Some(tail) => {
                                match x {
                                    RawStructureModel::Function(f) => {
                                        match spec_record_of(f) {
                                            Some(r) => {
                                                assert(seq![r0] + tail.push(r) =~= (seq![r0]
                                                    + tail).push(r));
                                            },
                                            None => {},
                                        }
                                    },
                                    _ => {},
                                }
                            },
                            None => {},
                        }
                    },
                    None => {},
                }
            },
            _ => {},
        }
    }
}

proof fn lemma_normalize_fails(rs: Seq<RawStructureModel>, i: int)
    requires
        0 <= i < rs.len(),
        rs[i] matches RawStructureModel::Function(f) && spec_record_of(f) is None,
    ensures
        spec_normalize(rs) is None,
    decreases i,
{
    if i > 0 {
        assert(rs.drop_first()[i - 1] == rs[i]);
        lemma_normalize_fails(rs.drop_first(), i - 1);
    }
}

/// Every record a successful normalization returns is well formed: its
/// selector is exactly the 4 bytes its sanitized name spells in hexadecimal,
/// and it never describes a constructor.
pub proof fn lemma_selector_well_formedness(rs: Seq<RawStructureModel>, out: Seq<RecordModel>)
    requires
        spec_normalize(rs) == Some(out),
    ensures
        forall|i: int| 0 <= i < out.len() ==> (#[trigger] out[i]).wf(),
    decreases rs.len(),
{
    if rs.len() > 0 {
        match rs[0] {
            RawStructureModel::Function(f) => {
                let r = spec_record_of(f)->Some_0;
                let tail = spec_normalize(rs.drop_first())->Some_0;
                lemma_selector_well_formedness(rs.drop_first(), tail);
                assert(out == seq![r] + tail);
                assert(r.wf());
                assert(forall|i: int| 0 <= i < out.len() ==> (#[trigger] out[i]) == (if i == 0 {
                    r
                } else {
                    tail[i - 1]
                }));
            },
            _ => {
                lemma_selector_well_formedness(rs.drop_first(), out);
            },
        }
    }
}

/// The comma-join of type tags, with no substitution applied.
pub open spec fn plain_joined(ts: Seq<Seq<char>>) -> Seq<char>
    decreases ts.len(),
{
    if ts.len() == 0 {
        Seq::empty()
    } else if ts.len() == 1 {
        ts[0]
    } else {
        ts[0] + ","@ + plain_joined(ts.drop_first())
    }
}

/// A raw parameter of type `bytes` appears in the signature as `unknown` and
/// every other tag as itself: the joined text is the plain comma-join of the
/// substituted tags, position by position.
pub proof fn lemma_bytes_substitution(inputs: Seq<Seq<char>>)
    ensures
        joined_types(inputs) == plain_joined(
            inputs.map_values(|t: Seq<char>| substituted_type(t)),
        ),
    decreases inputs.len(),
{
    let m = inputs.map_values(|t: Seq<char>| substituted_type(t));
    if inputs.len() == 0 {
    } else if inputs.len() == 1 {
        assert(m[0] == substituted_type(inputs[0]));
    } else {
        lemma_bytes_substitution(inputs.drop_first());
        assert(m[0] == substituted_type(inputs[0]));
        assert(m.drop_first() =~= inputs.drop_first().map_values(
            |t: Seq<char>| substituted_type(t),
        ));
    }
}

/// Which mutability flags one raw function's report yields: read-only exactly
/// on `view`, payable exactly on `payable`, and neither on anything else,
/// `nonpayable` included.
pub proof fn lemma_mutability_mapping(f: RawFunctionModel, r: RecordModel)
    requires
        spec_record_of(f) == Some(r),
    ensures
        r.is_static <==> f.state_mutability == "view"@,
        r.is_payable <==> f.state_mutability == "payable"@,
        f.state_mutability == "nonpayable"@ ==> !r.is_static && !r.is_payable,
{
    reveal_strlit("view");
    reveal_strlit("payable");
    reveal_strlit("nonpayable");
    assert("nonpayable"@.len() != "view"@.len());
    assert("nonpayable"@.len() != "payable"@.len());
}

pub open spec fn count_functions(rs: Seq<RawStructureModel>) -> int
    decreases rs.len(),
{
    if rs.len() == 0 {
        0
    } else {
        (if rs[0] is Function {
            1int
        } else {
            0int
        }) + count_functions(rs.drop_first())
    }
}

/// Non-function structures never reach the output: a successful normalization
/// yields exactly one record per function structure, so the output is never
/// longer than the raw list.
pub proof fn lemma_filtering(rs: Seq<RawStructureModel>)
    ensures
        spec_normalize(rs) matches Some(out) ==> out.len() == count_functions(rs)
            && count_functions(rs) <= rs.len(),
    decreases rs.len(),
{
    if rs.len() > 0 {
        lemma_filtering(rs.drop_first());
    }
}

/// For one fixed engine output, normalization is deterministic: any two record
/// lists it can yield are equal.
pub proof fn lemma_normalize_deterministic(
    raw: Seq<RawStructureModel>,
    out1: Seq<RecordModel>,
    out2: Seq<RecordModel>,
)
    requires
        spec_normalize(raw) == Some(out1),
        spec_normalize(raw) == Some(out2),
    ensures
        out1 == out2,
{
}

/// Normalize the engine's raw output into the ordered interface records,
/// reporting a malformed selector instead of aborting.
pub fn normalize(raw: &Vec<RawStructure>) -> (r: Result<Vec<InterfaceRecord>, FetchError>)
    ensures
        match spec_normalize(struct_views(raw@)) {
            Some(models) => r matches Ok(v) && views_of(v@) == models,
            None => r == Err::<Vec<InterfaceRecord>, FetchError>(FetchError::MalformedSelector),
        },
{
    proof {
        reveal_strlit("view");
        reveal_strlit("payable");
    }
    let view_tag: String = String::from_str("view");
    let payable_tag: String = String::from_str("payable");
    let mut out: Vec<InterfaceRecord> = Vec::new();
    let mut i: usize = 0;
    proof {
        assert(struct_views(raw@).take(0) =~= Seq::<RawStructureModel>::empty());
        assert(views_of(out@) =~= Seq::<RecordModel>::empty());
    }
    while i < raw.len()
        invariant
            i <= raw@.len(),
            view_tag@ == "view"@,
            payable_tag@ == "payable"@,
            spec_normalize(struct_views(raw@).take(i as int)) == Some(views_of(out@)),
        decreases raw@.len() - i,
    {
        let ghost vs = struct_views(raw@);
        let ghost pre = out@;
        proof {
            assert(vs[i as int] == raw@[i as int]@);
            assert(vs.take(i as int + 1) =~= vs.take(i as int).push(vs[i as int]));
            lemma_normalize_push(vs.take(i as int), vs[i as int]);
        }
        match &raw[i] {
            RawStructure::Function(f) => {
                let sanitized = sanitize_name(f.name.as_str());
                match decode_selector(sanitized.as_str()) {
                    None => {
                        proof {
                            lemma_normalize_fails(vs, i as int);
                        }
                        return Err(FetchError::MalformedSelector);
                    },
                    Some(sel) => {
                        let signature = build_signature(&f.inputs);
                        let is_static = f.state_mutability == view_tag;
                        let is_payable = f.state_mutability == payable_tag;
                        let rec = InterfaceRecord {
                            signature,
                            selector: sel,
                            name: sanitized,
                            is_static,
                            is_payable,
                            is_constructor: false,
                        };
                        proof {
                            assert(spec_record_of(raw@[i as int]@->Function_0) == Some(rec@));
                        }
                        out.push(rec);
                        proof {
                            assert(views_of(out@) =~= views_of(pre).push(rec@));
                        }
                    },
                }
            },
            _ => {},
        }
        i += 1;
    }
    proof {
        assert(struct_views(raw@).take(raw@.len() as int) =~= struct_views(raw@));
    }
    Ok(out)
}

} // verus!
