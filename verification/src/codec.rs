use vstd::prelude::*;
use vstd::string::*;
use crate::digits::{
    dec_digit_val, is_dec_digit, lemma_digits_value_nonneg, lemma_digits_value_round,
    lemma_spec_digits_all_digits, lemma_take_digits_exact, push_decimal, spec_digits,
    spec_digits_value, spec_take_digits,
};
use crate::hexstr::{decode_selector, spec_selector_of};
use crate::records::{views_of, InterfaceRecord, RecordModel};
use crate::strutil::chars_to_string;

verus! {

pub open spec fn bit_char(b: bool) -> char {
    if b {
        '1'
    } else {
        '0'
    }
}

/// The stored text of one record: its name and signature, each prefixed by its
/// decimal length, then one character per mutability flag. The selector is not
/// stored: a well-formed record's name spells it.
pub open spec fn spec_encode_record(r: RecordModel) -> Seq<char> {
    spec_digits(r.name.len() as int) + seq![':'] + r.name + spec_digits(r.signature.len() as int)
        + seq![':'] + r.signature + seq![bit_char(r.is_static), bit_char(r.is_payable), ';']
}

/// The stored text of an ordered record list: the records' texts, in order.
pub open spec fn spec_encode(rs: Seq<RecordModel>) -> Seq<char>
    decreases rs.len(),
{
    if rs.len() == 0 {
        Seq::empty()
    } else {
        spec_encode_record(rs[0]) + spec_encode(rs.drop_first())
    }
}

/// Read one length-prefixed field: decimal digits, a colon, then that many
/// characters. Yields the field and the remaining text.
pub open spec fn spec_parse_field(s: Seq<char>) -> Option<(Seq<char>, Seq<char>)> {
    let d = spec_take_digits(s);
    if d.len() == 0 {
        None
    } else {
        let after = s.skip(d.len() as int);
        if after.len() == 0 || after[0] != ':' {
            None
        } else {
            let n = spec_digits_value(d);
            let body = after.skip(1);
            if body.len() < n {
                None
            } else {
                Some((body.take(n), body.skip(n)))
            }
        }
    }
}

/// Read one record: name field, signature field, two flag characters and the
/// closing mark. The selector is recomputed from the name; a name that spells
/// no 4-byte selector makes the text invalid.
pub open spec fn spec_parse_record(s: Seq<char>) -> Option<(RecordModel, Seq<char>)> {
    match spec_parse_field(s) {
        None => None,
        Some((name, s1)) => match spec_parse_field(s1) {
            None => None,
            Some((sig, s2)) => {
                if s2.len() < 3 {
                    None
                } else if (s2[0] == '0' || s2[0] == '1') && (s2[1] == '0' || s2[1] == '1')
                    && s2[2] == ';' {
                    match spec_selector_of(name) {
                        Some(sel) => Some(
                            (
                                RecordModel {
                                    signature: sig,
                                    selector: sel,
                                    name: name,
                                    is_static: s2[0] == '1',
                                    is_payable: s2[1] == '1',
                                    is_constructor: false,
                                },
                                s2.skip(3),
                            ),
                        ),
                        None => None,
                    }
                } else {
                    None
                }
            },
        },
    }
}

/// Read a whole stored text: records until the text ends. Any leftover or
/// ill-formed text makes the whole reading fail.
pub open spec fn spec_decode(s: Seq<char>) -> Option<Seq<RecordModel>>
    decreases s.len(),
{
    if s.len() == 0 {
        Some(Seq::empty())
    } else {
        match spec_parse_record(s) {
            None => None,
            Some((r, rest)) => if rest.len() < s.len() {
                match spec_decode(rest) {
                    Some(tail) => Some(seq![r] + tail),
                    None => None,
                }
            } else {
                None
            },
        }
    }
}

proof fn lemma_parse_field_round(payload: Seq<char>, rest: Seq<char>)
    ensures
        spec_parse_field(spec_digits(payload.len() as int) + seq![':'] + payload + rest) == Some(
            (payload, rest),
        ),
{
    let n = payload.len() as int;
    let d = spec_digits(n);
    lemma_spec_digits_all_digits(n);
    let s = d + seq![':'] + payload + rest;
    assert(s.take(d.len() as int) =~= d);
    assert(forall|i: int| 0 <= i < d.len() ==> s[i] == d[i]);
    assert(s[d.len() as int] == ':');
    assert(!is_dec_digit(':'));
    lemma_take_digits_exact(s, d.len() as int);
    assert(spec_take_digits(s) == d);
    lemma_digits_value_round(n);
    let after = s.skip(d.len() as int);
    assert(after[0] == ':');
    let body = after.skip(1);
    assert(body =~= payload + rest);
    assert(body.len() >= n);
    assert(body.take(n) =~= payload);
    assert(body.skip(n) =~= rest);
}

proof fn lemma_parse_record_round(r: RecordModel, rest: Seq<char>)
    requires
        r.wf(),
    ensures
        spec_parse_record(spec_encode_record(r) + rest) == Some((r, rest)),
        spec_encode_record(r).len() >= 1,
{
    let s = spec_encode_record(r) + rest;
    let flags = seq![bit_char(r.is_static), bit_char(r.is_payable), ';'];
    let tail2 = flags + rest;
    let tail1 = spec_digits(r.signature.len() as int) + seq![':'] + r.signature + tail2;
    assert(s =~= spec_digits(r.name.len() as int) + seq![':'] + r.name + tail1);
    lemma_parse_field_round(r.name, tail1);
    lemma_parse_field_round(r.signature, tail2);
    assert(tail2[0] == bit_char(r.is_static));
    assert(tail2[1] == bit_char(r.is_payable));
    assert(tail2[2] == ';');
    assert(spec_selector_of(r.name) == Some(r.selector));
    assert(tail2.skip(3) =~= rest);
    assert((bit_char(r.is_static) == '1') == r.is_static);
    assert((bit_char(r.is_payable) == '1') == r.is_payable);
    let parsed = spec_parse_record(s)->Some_0.0;
    assert(parsed =~= r);
    lemma_spec_digits_all_digits(r.name.len() as int);
}

/// Reading back the stored text of well-formed records yields those records,
/// field for field.
pub proof fn lemma_decode_encode(rs: Seq<RecordModel>)
    requires
        forall|i: int| 0 <= i < rs.len() ==> (#[trigger] rs[i]).wf(),
    ensures
        spec_decode(spec_encode(rs)) == Some(rs),
    decreases rs.len(),
{
    if rs.len() == 0 {
    } else {
        let s = spec_encode(rs);
        let rest = spec_encode(rs.drop_first());
        assert(s == spec_encode_record(rs[0]) + rest);
        lemma_parse_record_round(rs[0], rest);
        assert(forall|i: int| 0 <= i < rs.drop_first().len() ==> (#[trigger] rs.drop_first()[i]).wf());
        lemma_decode_encode(rs.drop_first());
        assert(s.len() >= spec_encode_record(rs[0]).len() + 0);
        assert(rest.len() < s.len());
        assert(seq![rs[0]] + rs.drop_first() =~= rs);
    }
}

proof fn lemma_encode_push(rs: Seq<RecordModel>, x: RecordModel)
    ensures
        spec_encode(rs.push(x)) == spec_encode(rs) + spec_encode_record(x),
    decreases rs.len(),
{
    if rs.len() == 0 {
        assert(rs.push(x)[0] == x);
        assert(rs.push(x).drop_first() =~= Seq::<RecordModel>::empty());
        assert(spec_encode(Seq::<RecordModel>::empty()) == Seq::<char>::empty());
        assert(spec_encode(rs.push(x)) == spec_encode_record(x) + Seq::<char>::empty());
        assert(spec_encode_record(x) + Seq::<char>::empty() =~= Seq::<char>::empty()
            + spec_encode_record(x));
    } else {
        assert(rs.push(x)[0] == rs[0]);
        assert(rs.push(x).drop_first() =~= rs.drop_first().push(x));
        lemma_encode_push(rs.drop_first(), x);
        assert(spec_encode_record(rs[0]) + (spec_encode(rs.drop_first()) + spec_encode_record(x))
            =~= (spec_encode_record(rs[0]) + spec_encode(rs.drop_first())) + spec_encode_record(
            x,
        ));
    }
}

fn push_str_chars(s: &str, out: &mut Vec<char>)
    ensures
        final(out)@ == old(out)@ + s@,
{
    let n = s.unicode_len();
    let mut i: usize = 0;
    proof {
        assert(out@ =~= old(out)@ + s@.take(0));
    }
    while i < n
        invariant
            n == s@.len(),
            i <= n,
            out@ == old(out)@ + s@.take(i as int),
        decreases n - i,
    {
        let c = s.get_char(i);
        out.push(c);
        proof {
            assert(s@.take(i as int).push(s@[i as int]) =~= s@.take(i as int + 1));
        }
        i += 1;
    }
    proof {
        assert(s@.take(n as int) =~= s@);
    }
}

/// Render an ordered record list as the stored text.
pub fn encode_records(records: &Vec<InterfaceRecord>) -> (r: String)
    ensures
        r@ == spec_encode(views_of(records@)),
{
    let mut out: Vec<char> = Vec::new();
    let mut i: usize = 0;
    proof {
        assert(views_of(records@).take(0) =~= Seq::<RecordModel>::empty());
        assert(out@ =~= spec_encode(views_of(records@).take(0)));
    }
    while i < records.len()
        invariant
            i <= records@.len(),
            out@ == spec_encode(views_of(records@).take(i as int)),
        decreases records@.len() - i,
    {
        let ghost vs = views_of(records@);
        let ghost pre = out@;
        let rec = &records[i];
        let name_len = rec.name.as_str().unicode_len();
        push_decimal(name_len as u64, &mut out);
        out.push(':');
        push_str_chars(rec.name.as_str(), &mut out);
        let sig_len = rec.signature.as_str().unicode_len();
        push_decimal(sig_len as u64, &mut out);
        out.push(':');
        push_str_chars(rec.signature.as_str(), &mut out);
        let b1 = if rec.is_static {
            '1'
        } else {
            '0'
        };
        let b2 = if rec.is_payable {
            '1'
        } else {
            '0'
        };
        out.push(b1);
        out.push(b2);
        out.push(';');
        proof {
            assert(vs[i as int] == records@[i as int]@);
            assert(out@ =~= pre + spec_encode_record(vs[i as int]));
            assert(vs.take(i as int + 1) =~= vs.take(i as int).push(vs[i as int]));
            lemma_encode_push(vs.take(i as int), vs[i as int]);
        }
        i += 1;
    }
    proof {
        assert(views_of(records@).take(records@.len() as int) =~= views_of(records@));
    }
    chars_to_string(&out)
}

fn is_digit_exec(c: char) -> (r: bool)
    ensures
        r == is_dec_digit(c),
{
    ('0' as u32) <= (c as u32) && (c as u32) <= ('9' as u32)
}

fn scan_digits(s: &str, n: usize, i: usize) -> (j: usize)
    requires
        n == s@.len(),
        i <= n,
    ensures
        i <= j <= n,
        forall|k: int| i <= k < j ==> is_dec_digit(#[trigger] s@[k]),
        j == n || !is_dec_digit(s@[j as int]),
        spec_take_digits(s@.skip(i as int)) == s@.subrange(i as int, j as int),
{
    let mut j: usize = i;
    loop
        invariant
            n == s@.len(),
            i <= j <= n,
            forall|k: int| i <= k < j ==> is_dec_digit(#[trigger] s@[k]),
        ensures
            i <= j <= n,
            forall|k: int| i <= k < j ==> is_dec_digit(#[trigger] s@[k]),
            j == n || !is_dec_digit(s@[j as int]),
        decreases n - j,
    {
        if j == n {
            break ;
        }
        let c = s.get_char(j);
        if !is_digit_exec(c) {
            break ;
        }
        j += 1;
    }
    proof {
        let t = s@.skip(i as int);
        assert(forall|m: int| 0 <= m < t.len() ==> t[m] == s@[i + m]);
        lemma_take_digits_exact(t, j - i);
        assert(t.take(j - i) =~= s@.subrange(i as int, j as int));
    }
    j
}

fn parse_field(s: &str, n: usize, i: usize) -> (r: Option<(String, usize)>)
    requires
        n == s@.len(),
        i <= n,
    ensures
        match r {
            Some(p) => i < p.1 <= n && spec_parse_field(s@.skip(i as int)) == Some(
                (p.0@, s@.skip(p.1 as int)),
            ),
            None => spec_parse_field(s@.skip(i as int)) is None,
        },
{
    let ghost t = s@.skip(i as int);
    let j = scan_digits(s, n, i);
    let ghost d = s@.subrange(i as int, j as int);
    if j == i {
        proof {
            assert(d.len() == 0);
        }
        return None;
    }
    if j == n {
        proof {
            assert(t.skip(d.len() as int) =~= s@.skip(j as int));
            assert(t.skip(d.len() as int).len() == 0);
        }
        return None;
    }
    let c = s.get_char(j);
    proof {
        assert(t.skip(d.len() as int) =~= s@.skip(j as int));
        assert(s@.skip(j as int)[0] == s@[j as int]);
    }
    if c != ':' {
        return None;
    }
    let avail: usize = n - (j + 1);
    let mut val: u128 = 0;
    let mut too_big: bool = false;
    let mut k: usize = i;
    proof {
        assert(s@.subrange(i as int, i as int) =~= Seq::<char>::empty());
    }
    while k < j
        invariant
            n == s@.len(),
            i <= k <= j <= n,
            j < n,
            avail == n - (j + 1),
            forall|m: int| i <= m < j ==> is_dec_digit(#[trigger] s@[m]),
            !too_big ==> val == spec_digits_value(s@.subrange(i as int, k as int)) && val
                <= avail as u128,
            too_big ==> spec_digits_value(s@.subrange(i as int, k as int)) > avail as int,
        decreases j - k,
    {
        let ghost dk = s@.subrange(i as int, k as int);
        let ghost dk1 = s@.subrange(i as int, k as int + 1);
        proof {
            assert(dk1.drop_last() =~= dk);
            assert(dk1.last() == s@[k as int]);
            assert(forall|m: int| 0 <= m < dk.len() ==> is_dec_digit(#[trigger] dk[m]));
            lemma_digits_value_nonneg(dk);
        }
        let c2 = s.get_char(k);
        let dv: u128 = ((c2 as u32) - ('0' as u32)) as u128;
        if !too_big {
            let nv: u128 = val * 10 + dv;
            if nv > avail as u128 {
                too_big = true;
            } else {
                val = nv;
            }
        } else {
            proof {
                assert(spec_digits_value(dk1) == spec_digits_value(dk) * 10 + dec_digit_val(
                    s@[k as int],
                ));
            }
        }
        k += 1;
    }
    let ghost dfull = s@.subrange(i as int, j as int);
    if too_big {
        proof {
            let after = t.skip(dfull.len() as int);
            let body = after.skip(1);
            assert(body =~= s@.skip(j as int + 1));
            assert(body.len() == avail);
            lemma_digits_value_nonneg(dfull);
        }
        return None;
    }
    let len_val: usize = val as usize;
    let payload_str = s.substring_char(j + 1, j + 1 + len_val);
    let payload = String::from_str(payload_str);
    proof {
        let after = t.skip(dfull.len() as int);
        assert(after =~= s@.skip(j as int));
        assert(after[0] == ':');
        let body = after.skip(1);
        assert(body =~= s@.skip(j as int + 1));
        assert(body.len() == avail);
        assert(payload@ =~= body.take(len_val as int));
        assert(body.skip(len_val as int) =~= s@.skip(j as int + 1 + len_val as int));
    }
    Some((payload, j + 1 + len_val))
}

fn parse_record(s: &str, n: usize, i: usize) -> (r: Option<(InterfaceRecord, usize)>)
    requires
        n == s@.len(),
        i <= n,
    ensures
        match r {
            Some(p) => i < p.1 <= n && spec_parse_record(s@.skip(i as int)) == Some(
                (p.0@, s@.skip(p.1 as int)),
            ),
            None => spec_parse_record(s@.skip(i as int)) is None,
        },
{
    let f1 = parse_field(s, n, i);
    match f1 {
        None => None,
        Some((name, i1)) => {
            let f2 = parse_field(s, n, i1);
            match f2 {
                None => None,
                Some((sig, i2)) => {
                    if n - i2 < 3 {
                        proof {
                            assert(s@.skip(i2 as int).len() < 3);
                        }
                        return None;
                    }
                    let b1 = s.get_char(i2);
                    let b2 = s.get_char(i2 + 1);
                    let b3 = s.get_char(i2 + 2);
                    proof {
                        let s2 = s@.skip(i2 as int);
                        assert(s2[0] == s@[i2 as int]);
                        assert(s2[1] == s@[i2 as int + 1]);
                        assert(s2[2] == s@[i2 as int + 2]);
                    }
                    if !((b1 == '0' || b1 == '1') && (b2 == '0' || b2 == '1') && b3 == ';') {
                        return None;
                    }
                    match decode_selector(name.as_str()) {
                        None => None,
                        Some(sel) => {
                            let rec = InterfaceRecord {
                                signature: sig,
                                selector: sel,
                                name,
                                is_static: b1 == '1',
                                is_payable: b2 == '1',
                                is_constructor: false,
                            };
                            proof {
                                let s2 = s@.skip(i2 as int);
                                assert(s2.skip(3) =~= s@.skip(i2 as int + 3));
                                assert(spec_parse_record(s@.skip(i as int))->Some_0.0 =~= rec@);
                            }
                            Some((rec, i2 + 3))
                        },
                    }
                },
            }
        },
    }
}

/// Read a stored text back into records; `None` exactly when the text is not
/// a well-formed stored record list.
pub fn decode_records(s: &str) -> (r: Option<Vec<InterfaceRecord>>)
    ensures
        match r {
            Some(v) => spec_decode(s@) == Some(views_of(v@)),
            None => spec_decode(s@) is None,
        },
{
    let n = s.unicode_len();
    let mut out: Vec<InterfaceRecord> = Vec::new();
    let mut i: usize = 0;
    proof {
        assert(s@.skip(0) =~= s@);
        assert(views_of(out@) =~= Seq::<RecordModel>::empty());
    }
    while i < n
        invariant
            n == s@.len(),
            i <= n,
            match spec_decode(s@.skip(i as int)) {
                Some(tail) => spec_decode(s@) == Some(views_of(out@) + tail),
                None => spec_decode(s@) is None,
            },
        decreases n - i,
    {
        let ghost pre = out@;
        match parse_record(s, n, i) {
            None => {
                return None;
            },
            Some((rec, j)) => {
                proof {
                    assert(s@.skip(i as int).len() > 0);
                    assert(s@.skip(j as int).len() < s@.skip(i as int).len());
                }
                out.push(rec);
                proof {
                    assert(views_of(out@) =~= views_of(pre).push(rec@));
                    match spec_decode(s@.skip(j as int)) {
                        Some(tail) => {
                            assert(spec_decode(s@.skip(i as int)) == Some(seq![rec@] + tail));
                            assert(views_of(pre) + (seq![rec@] + tail) =~= views_of(pre).push(rec@)
                                + tail);
                        },
                        None => {},
                    }
                }
                i = j;
            },
        }
    }
    proof {
        assert(s@.skip(n as int) =~= Seq::<char>::empty());
        assert(views_of(out@) + Seq::<RecordModel>::empty() =~= views_of(out@));
    }
    Some(out)
}

} // verus!
