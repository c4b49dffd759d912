//! The JSON wire format the proxy speaks: a value model, a canonical
//! renderer, and a parser for the renderer's output language.
//!
//! Text is handled as raw bytes; string contents are stored unescaped.
//! Numbers keep their decimal digit run as written on the wire, so the
//! renderer is exact on every value the parser can produce.
//!
//! The module holds, in order: the document model and its views; the
//! executable renderer and parser, each against the mathematical wire
//! text (`text_of`, `parse_value`) written down further below; field
//! lookup and the typed accessors; and the two laws that pin the codec:
//! a well-formed document's text parses back to it (`lemma_render_parse`),
//! and whatever parses was exactly some document's text
//! (`lemma_parse_canonical`).

use vstd::prelude::*;

verus! {

/// A JSON document as held in executable code.
#[derive(Debug, PartialEq, Eq)]
pub enum JsonValue {
    Null,
    Bool(bool),
    /// The run of ASCII decimal digits as written on the wire.
    Num(Vec<u8>),
    /// String contents, unescaped.
    Str(Vec<u8>),
    Arr(Vec<JsonValue>),
    Obj(Vec<(Vec<u8>, JsonValue)>),
}

/// The mathematical shape of a JSON document.
#[verifier::ext_equal]
pub enum JsonVal {
    Null,
    Bool(bool),
    Num(Seq<u8>),
    Str(Seq<u8>),
    Arr(Seq<JsonVal>),
    Obj(Seq<(Seq<u8>, JsonVal)>),
}

/// The abstract document a `JsonValue` holds.
pub open spec fn jv(v: JsonValue) -> JsonVal
    decreases v,
    via jv_decreases
{
    match v {
        JsonValue::Null => JsonVal::Null,
        JsonValue::Bool(b) => JsonVal::Bool(b),
        JsonValue::Num(d) => JsonVal::Num(d@),
        JsonValue::Str(s) => JsonVal::Str(s@),
        JsonValue::Arr(es) => JsonVal::Arr(jv_elems(es@)),
        JsonValue::Obj(ps) => JsonVal::Obj(jv_pairs(ps@)),
    }
}

/// The abstract documents of a sequence of array elements.
pub open spec fn jv_elems(es: Seq<JsonValue>) -> Seq<JsonVal>
    decreases es,
    via jv_elems_decreases
{
    if es.len() == 0 {
        Seq::empty()
    } else {
        seq![jv(es[0])] + jv_elems(es.drop_first())
    }
}

/// The abstract key/document pairs of a sequence of object members.
pub open spec fn jv_pairs(ps: Seq<(Vec<u8>, JsonValue)>) -> Seq<(Seq<u8>, JsonVal)>
    decreases ps,
    via jv_pairs_decreases
{
    if ps.len() == 0 {
        Seq::empty()
    } else {
        seq![(ps[0].0@, jv(ps[0].1))] + jv_pairs(ps.drop_first())
    }
}

#[via_fn]
proof fn jv_decreases(v: JsonValue) {
    broadcast use vstd::std_specs::vec::axiom_vec_decreases_to_view;

    match v {
        JsonValue::Arr(es) => {
            assert(decreases_to!(v => es));
            assert(decreases_to!(es => es@));
        }
        JsonValue::Obj(ps) => {
            assert(decreases_to!(v => ps));
            assert(decreases_to!(ps => ps@));
        }
        _ => {}
    }
}

#[via_fn]
proof fn jv_elems_decreases(es: Seq<JsonValue>) {
    broadcast use vstd::seq::axiom_seq_index_decreases, vstd::seq::axiom_seq_subrange_decreases;

    if es.len() > 0 {
        assert(decreases_to!(es => es[0]));
        assert(es.drop_first() == es.subrange(1, es.len() as int));
        assert(decreases_to!(es => es.subrange(1, es.len() as int)));
    }
}

#[via_fn]
proof fn jv_pairs_decreases(ps: Seq<(Vec<u8>, JsonValue)>) {
    broadcast use vstd::seq::axiom_seq_index_decreases, vstd::seq::axiom_seq_subrange_decreases;

    if ps.len() > 0 {
        assert(decreases_to!(ps => ps[0]));
        assert(decreases_to!(ps[0] => ps[0].1));
        assert(ps.drop_first() == ps.subrange(1, ps.len() as int));
        assert(decreases_to!(ps => ps.subrange(1, ps.len() as int)));
    }
}

impl View for JsonValue {
    type V = JsonVal;

    open spec fn view(&self) -> JsonVal {
        jv(*self)
    }
}

/// A sequence of elements and its abstract form have the same length,
/// and corresponding entries.
pub proof fn lemma_jv_elems(es: Seq<JsonValue>)
    ensures
        jv_elems(es).len() == es.len(),
        forall|i: int| 0 <= i < es.len() ==> jv_elems(es)[i] == jv(es[i]),
    decreases es.len(),
{
    if es.len() > 0 {
        lemma_jv_elems(es.drop_first());
    }
}

/// A sequence of members and its abstract form have the same length,
/// and corresponding entries.
pub proof fn lemma_jv_pairs(ps: Seq<(Vec<u8>, JsonValue)>)
    ensures
        jv_pairs(ps).len() == ps.len(),
        forall|i: int| 0 <= i < ps.len() ==> jv_pairs(ps)[i] == (ps[i].0@, jv(ps[i].1)),
    decreases ps.len(),
{
    if ps.len() > 0 {
        lemma_jv_pairs(ps.drop_first());
    }
}

/// Writes the escaped form of `s[i..]` onto `out`.
fn render_string_into(s: &Vec<u8>, i: usize, out: &mut Vec<u8>)
    requires
        i <= s@.len(),
    ensures
        final(out)@ == old(out)@ + text_of_string(s@.skip(i as int)),
    decreases s@.len() - i,
{
    if i == s.len() {
        assert(out@ =~= out@ + text_of_string(s@.skip(i as int)));
        return ;
    }
    let b = s[i];
    if b == 0x22 || b == 0x5c {
        out.push(0x5c);
        out.push(b);
    } else if b == 0x08 {
        out.push(0x5c);
        out.push(0x62);
    } else if b == 0x09 {
        out.push(0x5c);
        out.push(0x74);
    } else if b == 0x0a {
        out.push(0x5c);
        out.push(0x6e);
    } else if b == 0x0c {
        out.push(0x5c);
        out.push(0x66);
    } else if b == 0x0d {
        out.push(0x5c);
        out.push(0x72);
    } else if b < 0x20 {
        out.push(0x5c);
        out.push(0x75);
        out.push(0x30);
        out.push(0x30);
        let hi = b / 16;
        let lo = b % 16;
        out.push(if hi < 10 { (0x30 + hi) as u8 } else { (0x61 + (hi - 10)) as u8 });
        out.push(if lo < 10 { (0x30 + lo) as u8 } else { (0x61 + (lo - 10)) as u8 });
    } else {
        out.push(b);
    }
    let ghost mid = out@;
    assert(mid =~= old(out)@ + escape_byte(s@[i as int]));
    render_string_into(s, i + 1, out);
    proof {
        let tail = s@.skip(i as int);
        assert(tail[0] == s@[i as int]);
        assert(tail.drop_first() =~= s@.skip(i + 1));
        assert(out@ =~= old(out)@ + text_of_string(s@.skip(i as int)));
    }
}

/// Writes the wire text of `v` onto `out`.
pub fn render_into(v: &JsonValue, out: &mut Vec<u8>)
    ensures
        final(out)@ == old(out)@ + text_of(v@),
    decreases v, 0int,
{
    match v {
        JsonValue::Null => {
            out.push(0x6e);
            out.push(0x75);
            out.push(0x6c);
            out.push(0x6c);
            assert(out@ =~= old(out)@ + text_of(v@));
        },
        JsonValue::Bool(b) => {
            if *b {
                out.push(0x74);
                out.push(0x72);
                out.push(0x75);
                out.push(0x65);
            } else {
                out.push(0x66);
                out.push(0x61);
                out.push(0x6c);
                out.push(0x73);
                out.push(0x65);
            }
            assert(out@ =~= old(out)@ + text_of(v@));
        },
        JsonValue::Num(d) => {
            let mut k: usize = 0;
            while k < d.len()
                invariant
                    k <= d@.len(),
                    out@ == old(out)@ + d@.take(k as int),
                decreases d@.len() - k,
            {
                out.push(d[k]);
                assert(out@ =~= old(out)@ + d@.take(k + 1));
                k = k + 1;
            }
            assert(d@.take(d@.len() as int) =~= d@);
        },
        JsonValue::Str(s) => {
            out.push(0x22);
            render_string_into(s, 0, out);
            out.push(0x22);
            proof {
                assert(s@.skip(0) =~= s@);
                assert(out@ =~= old(out)@ + text_of(v@));
            }
        },
        JsonValue::Arr(es) => {
            out.push(0x5b);
            if es.len() > 0 {
                render_elems_into(es, 0, out);
            }
            out.push(0x5d);
            proof {
                assert(es@.skip(0) =~= es@);
                if es@.len() == 0 {
                    assert(jv_elems(es@) =~= Seq::<JsonVal>::empty());
                }
                assert(out@ =~= old(out)@ + text_of(v@));
            }
        },
        JsonValue::Obj(ps) => {
            out.push(0x7b);
            if ps.len() > 0 {
                render_members_into(ps, 0, out);
            }
            out.push(0x7d);
            proof {
                assert(ps@.skip(0) =~= ps@);
                if ps@.len() == 0 {
                    assert(jv_pairs(ps@) =~= Seq::<(Seq<u8>, JsonVal)>::empty());
                }
                assert(out@ =~= old(out)@ + text_of(v@));
            }
        },
    }
}

/// Writes the comma-separated wire text of `es[i..]` onto `out`.
fn render_elems_into(es: &Vec<JsonValue>, i: usize, out: &mut Vec<u8>)
    requires
        i < es@.len(),
    ensures
        final(out)@ == old(out)@ + text_of_elems(jv_elems(es@.skip(i as int))),
    decreases es, es@.len() - i, 1int,
{
    proof {
        broadcast use vstd::std_specs::vec::axiom_vec_index_decreases;

        assert(decreases_to!(es => es[i as int]));
    }
    render_into(&es[i], out);
    proof {
        let tail = es@.skip(i as int);
        assert(tail[0] == es@[i as int]);
        assert(tail.drop_first() =~= es@.skip(i + 1));
        lemma_jv_elems(tail);
        assert(jv_elems(tail)[0] == jv(es@[i as int]));
        assert(jv_elems(tail).drop_first() =~= jv_elems(es@.skip(i + 1))) by {
            lemma_jv_elems(es@.skip(i + 1));
        }
    }
    let n = es.len();
    if i + 1 < n {
        out.push(0x2c);
        render_elems_into(es, i + 1, out);
        proof {
            lemma_jv_elems(es@.skip(i as int));
            assert(out@ =~= old(out)@ + text_of_elems(jv_elems(es@.skip(i as int))));
        }
    } else {
        proof {
            lemma_jv_elems(es@.skip(i as int));
            assert(out@ =~= old(out)@ + text_of_elems(jv_elems(es@.skip(i as int))));
        }
    }
}

/// Writes the comma-separated wire text of the members `ps[i..]` onto `out`.
fn render_members_into(ps: &Vec<(Vec<u8>, JsonValue)>, i: usize, out: &mut Vec<u8>)
    requires
        i < ps@.len(),
    ensures
        final(out)@ == old(out)@ + text_of_members(jv_pairs(ps@.skip(i as int))),
    decreases ps, ps@.len() - i, 1int,
{
    out.push(0x22);
    render_string_into(&ps[i].0, 0, out);
    out.push(0x22);
    out.push(0x3a);
    proof {
        broadcast use vstd::std_specs::vec::axiom_vec_index_decreases;

        assert(decreases_to!(ps => ps[i as int]));
        assert(decreases_to!(ps[i as int] => ps[i as int].1));
        assert(ps@[i as int].0@.skip(0) =~= ps@[i as int].0@);
    }
    render_into(&ps[i].1, out);
    proof {
        let tail = ps@.skip(i as int);
        assert(tail[0] == ps@[i as int]);
        assert(tail.drop_first() =~= ps@.skip(i + 1));
        lemma_jv_pairs(tail);
        assert(jv_pairs(tail)[0] == (ps@[i as int].0@, jv(ps@[i as int].1)));
        assert(jv_pairs(tail).drop_first() =~= jv_pairs(ps@.skip(i + 1))) by {
            lemma_jv_pairs(ps@.skip(i + 1));
        }
    }
    let n = ps.len();
    if i + 1 < n {
        out.push(0x2c);
        render_members_into(ps, i + 1, out);
        proof {
            lemma_jv_pairs(ps@.skip(i as int));
            assert(out@ =~= old(out)@ + text_of_members(jv_pairs(ps@.skip(i as int))));
        }
    } else {
        proof {
            lemma_jv_pairs(ps@.skip(i as int));
            assert(out@ =~= old(out)@ + text_of_members(jv_pairs(ps@.skip(i as int))));
        }
    }
}

/// Parses string contents of `s[i..]` after the opening quote, pushing the
/// unescaped bytes onto `acc`; returns the position just past the closing
/// quote.
fn parse_string_at(s: &Vec<u8>, i: usize, acc: &mut Vec<u8>) -> (r: Option<usize>)
    requires
        i <= s@.len(),
    ensures
        match r {
            Some(j) => {
                &&& i <= j <= s@.len()
                &&& parse_string_body(s@.skip(i as int)) matches Some(p) && final(acc)@ == old(
                    acc,
                )@ + p.0 && j - i == p.1
            },
            None => parse_string_body(s@.skip(i as int)) is None,
        },
    decreases s@.len() - i,
{
    let len = s.len();
    let ghost tail = s@.skip(i as int);
    if i == len {
        return None;
    }
    let b = s[i];
    assert(tail[0] == b);
    if b == 0x22 {
        assert(acc@ =~= acc@ + Seq::<u8>::empty());
        return Some(i + 1);
    }
    if b == 0x5c {
        if len - i < 2 {
            return None;
        }
        let e = s[i + 1];
        assert(tail[1] == e);
        if e == 0x22 || e == 0x5c || e == 0x62 || e == 0x66 || e == 0x6e || e == 0x72
            || e == 0x74 {
            let unesc: u8 = if e == 0x22 {
                0x22
            } else if e == 0x5c {
                0x5c
            } else if e == 0x62 {
                0x08
            } else if e == 0x66 {
                0x0c
            } else if e == 0x6e {
                0x0a
            } else if e == 0x72 {
                0x0d
            } else {
                0x09
            };
            acc.push(unesc);
            let ghost acc1 = acc@;
            assert(tail.skip(2) =~= s@.skip(i + 2));
            match parse_string_at(s, i + 2, acc) {
                Some(j) => {
                    proof {
                        let p = parse_string_body(s@.skip(i + 2))->Some_0;
                        assert(acc@ =~= old(acc)@ + (seq![unescaped(e)] + p.0));
                    }
                    Some(j)
                },
                None => None,
            }
        } else if e == 0x75 {
            if len - i < 6 {
                return None;
            }
            assert(tail.len() >= 6 && tail[2] == s@[i + 2] && tail[3] == s@[i + 3] && tail[4]
                == s@[i + 4] && tail[5] == s@[i + 5]);
            if !(s[i + 2] == 0x30 && s[i + 3] == 0x30) {
                return None;
            }
            let h4 = s[i + 4];
            let h5 = s[i + 5];
            let v4: u8 = if 0x30 <= h4 && h4 <= 0x39 {
                h4 - 0x30
            } else if 0x61 <= h4 && h4 <= 0x66 {
                h4 - 0x61 + 10
            } else {
                return None;
            };
            let v5: u8 = if 0x30 <= h5 && h5 <= 0x39 {
                h5 - 0x30
            } else if 0x61 <= h5 && h5 <= 0x66 {
                h5 - 0x61 + 10
            } else {
                return None;
            };
            let bv: u8 = v4 * 16 + v5;
            if !(bv < 0x20 && !(bv == 0x08 || bv == 0x09 || bv == 0x0a || bv == 0x0c || bv
                == 0x0d)) {
                return None;
            }
            acc.push(bv);
            assert(tail.skip(6) =~= s@.skip(i + 6));
            match parse_string_at(s, i + 6, acc) {
                Some(j) => {
                    proof {
                        let p = parse_string_body(s@.skip(i + 6))->Some_0;
                        assert(acc@ =~= old(acc)@ + (seq![bv] + p.0));
                    }
                    Some(j)
                },
                None => None,
            }
        } else {
            None
        }
    } else if b < 0x20 {
        None
    } else {
        acc.push(b);
        assert(tail.skip(1) =~= s@.skip(i + 1));
        match parse_string_at(s, i + 1, acc) {
            Some(j) => {
                proof {
                    let p = parse_string_body(s@.skip(i + 1))->Some_0;
                    assert(acc@ =~= old(acc)@ + (seq![b] + p.0));
                }
                Some(j)
            },
            None => None,
        }
    }
}

/// Position just past the run of ASCII digits that starts at `i`.
fn digit_run_end(s: &Vec<u8>, i: usize) -> (j: usize)
    requires
        i <= s@.len(),
    ensures
        i <= j <= s@.len(),
        j - i == digit_run(s@.skip(i as int)),
    decreases s@.len() - i,
{
    let len = s.len();
    if i < len {
        let b = s[i];
        assert(s@.skip(i as int)[0] == b);
        if 0x30 <= b && b <= 0x39 {
            assert(s@.skip(i as int).drop_first() =~= s@.skip(i + 1));
            let j = digit_run_end(s, i + 1);
            return j;
        }
    }
    i
}

/// The bytes `s[i..j]` as a fresh vector.
fn copy_range(s: &Vec<u8>, i: usize, j: usize) -> (r: Vec<u8>)
    requires
        i <= j <= s@.len(),
    ensures
        r@ == s@.subrange(i as int, j as int),
{
    let mut r: Vec<u8> = Vec::new();
    let mut k: usize = i;
    assert(r@ =~= s@.subrange(i as int, i as int));
    while k < j
        invariant
            i <= k <= j <= s@.len(),
            r@ == s@.subrange(i as int, k as int),
        decreases j - k,
    {
        r.push(s[k]);
        assert(r@ =~= s@.subrange(i as int, k + 1));
        k = k + 1;
    }
    r
}

/// Parses one document at position `i`: the document and the position just
/// past it.
fn parse_value_at(s: &Vec<u8>, i: usize) -> (r: Option<(JsonValue, usize)>)
    requires
        i <= s@.len(),
    ensures
        match r {
            Some(p) => i <= p.1 <= s@.len() && parse_value(s@.skip(i as int)) == Some(
                (p.0@, p.1 - i as int),
            ),
            None => parse_value(s@.skip(i as int)) is None,
        },
    decreases s@.len() - i, 0int,
{
    let len = s.len();
    let ghost tail = s@.skip(i as int);
    if i == len {
        return None;
    }
    let b = s[i];
    assert(tail[0] == b);
    if b == 0x6e {
        if len - i >= 4 && s[i + 1] == 0x75 && s[i + 2] == 0x6c && s[i + 3] == 0x6c {
            assert(tail.len() >= 4 && tail[1] == s@[i + 1] && tail[2] == s@[i + 2] && tail[3]
                == s@[i + 3]);
            Some((JsonValue::Null, i + 4))
        } else {
            proof {
                if tail.len() >= 4 {
                    assert(tail[1] == s@[i + 1] && tail[2] == s@[i + 2] && tail[3] == s@[i + 3]);
                }
            }
            None
        }
    } else if b == 0x74 {
        if len - i >= 4 && s[i + 1] == 0x72 && s[i + 2] == 0x75 && s[i + 3] == 0x65 {
            assert(tail.len() >= 4 && tail[1] == s@[i + 1] && tail[2] == s@[i + 2] && tail[3]
                == s@[i + 3]);
            Some((JsonValue::Bool(true), i + 4))
        } else {
            proof {
                if tail.len() >= 4 {
                    assert(tail[1] == s@[i + 1] && tail[2] == s@[i + 2] && tail[3] == s@[i + 3]);
                }
            }
            None
        }
    } else if b == 0x66 {
        if len - i >= 5 && s[i + 1] == 0x61 && s[i + 2] == 0x6c && s[i + 3] == 0x73 && s[i + 4]
            == 0x65 {
            assert(tail.len() >= 5 && tail[1] == s@[i + 1] && tail[2] == s@[i + 2] && tail[3]
                == s@[i + 3] && tail[4] == s@[i + 4]);
            Some((JsonValue::Bool(false), i + 5))
        } else {
            proof {
                if tail.len() >= 5 {
                    assert(tail[1] == s@[i + 1] && tail[2] == s@[i + 2] && tail[3] == s@[i + 3]
                        && tail[4] == s@[i + 4]);
                }
            }
            None
        }
    } else if b == 0x22 {
        let mut content: Vec<u8> = Vec::new();
        assert(tail.skip(1) =~= s@.skip(i + 1));
        match parse_string_at(s, i + 1, &mut content) {
            Some(j) => {
                proof {
                    let p = parse_string_body(s@.skip(i + 1))->Some_0;
                    assert(content@ =~= p.0);
                }
                Some((JsonValue::Str(content), j))
            },
            None => None,
        }
    } else if 0x30 <= b && b <= 0x39 {
        let j = digit_run_end(s, i);
        let digits = copy_range(s, i, j);
        proof {
            assert(tail.take(j - i as int) =~= s@.subrange(i as int, j as int));
        }
        Some((JsonValue::Num(digits), j))
    } else if b == 0x5b {
        if len - i >= 2 && s[i + 1] == 0x5d {
            assert(tail.len() >= 2 && tail[1] == s@[i + 1]);
            let empty: Vec<JsonValue> = Vec::new();
            assert(jv_elems(empty@) =~= Seq::<JsonVal>::empty());
            Some((JsonValue::Arr(empty), i + 2))
        } else {
            proof {
                if tail.len() >= 2 {
                    assert(tail[1] == s@[i + 1]);
                }
                assert(tail.skip(1) =~= s@.skip(i + 1));
            }
            let mut elems: Vec<JsonValue> = Vec::new();
            match parse_elems_at(s, i + 1, &mut elems) {
                Some(j) => {
                    proof {
                        let p = parse_elems(s@.skip(i + 1))->Some_0;
                        assert(jv_elems(elems@) =~= p.0);
                    }
                    Some((JsonValue::Arr(elems), j))
                },
                None => None,
            }
        }
    } else if b == 0x7b {
        if len - i >= 2 && s[i + 1] == 0x7d {
            assert(tail.len() >= 2 && tail[1] == s@[i + 1]);
            let empty: Vec<(Vec<u8>, JsonValue)> = Vec::new();
            assert(jv_pairs(empty@) =~= Seq::<(Seq<u8>, JsonVal)>::empty());
            Some((JsonValue::Obj(empty), i + 2))
        } else {
            proof {
                if tail.len() >= 2 {
                    assert(tail[1] == s@[i + 1]);
                }
                assert(tail.skip(1) =~= s@.skip(i + 1));
            }
            let mut members: Vec<(Vec<u8>, JsonValue)> = Vec::new();
            match parse_members_at(s, i + 1, &mut members) {
                Some(j) => {
                    proof {
                        let p = parse_members(s@.skip(i + 1))->Some_0;
                        assert(jv_pairs(members@) =~= p.0);
                    }
                    Some((JsonValue::Obj(members), j))
                },
                None => None,
            }
        }
    } else {
        None
    }
}

/// Parses `value (',' value)* ']'` starting at `i`, pushing the elements
/// onto `acc`; returns the position just past the closing bracket.
fn parse_elems_at(s: &Vec<u8>, i: usize, acc: &mut Vec<JsonValue>) -> (r: Option<usize>)
    requires
        i <= s@.len(),
    ensures
        match r {
            Some(j) => {
                &&& i <= j <= s@.len()
                &&& parse_elems(s@.skip(i as int)) matches Some(p) && jv_elems(final(acc)@)
                    == jv_elems(old(acc)@) + p.0 && j - i == p.1
            },
            None => parse_elems(s@.skip(i as int)) is None,
        },
    decreases s@.len() - i, 1int,
{
    let len = s.len();
    let ghost tail = s@.skip(i as int);
    if i == len {
        return None;
    }
    match parse_value_at(s, i) {
        Some((v, j)) => {
            if j == len {
                return None;
            }
            let c = s[j];
            assert(tail[j - i] == c);
            acc.push(v);
            let ghost acc1 = acc@;
            proof {
                lemma_jv_elems(acc1);
                lemma_jv_elems(old(acc)@);
                assert(jv_elems(acc1) =~= jv_elems(old(acc)@) + seq![jv(v)]);
            }
            if c == 0x2c {
                assert(tail.skip(j - i + 1) =~= s@.skip(j + 1));
                match parse_elems_at(s, j + 1, acc) {
                    Some(m) => {
                        proof {
                            let p = parse_elems(s@.skip(j + 1))->Some_0;
                            assert(jv_elems(acc@) =~= jv_elems(old(acc)@) + (seq![jv(v)] + p.0));
                        }
                        Some(m)
                    },
                    None => None,
                }
            } else if c == 0x5d {
                proof {
                    let p = parse_elems(tail)->Some_0;
                    assert(jv_elems(acc@) =~= jv_elems(old(acc)@) + p.0);
                }
                Some(j + 1)
            } else {
                None
            }
        },
        None => None,
    }
}

/// Parses `string ':' value (',' member)* '}'` starting at `i`, pushing the
/// members onto `acc`; returns the position just past the closing brace.
fn parse_members_at(s: &Vec<u8>, i: usize, acc: &mut Vec<(Vec<u8>, JsonValue)>) -> (r: Option<
    usize,
>)
    requires
        i <= s@.len(),
    ensures
        match r {
            Some(j) => {
                &&& i <= j <= s@.len()
                &&& parse_members(s@.skip(i as int)) matches Some(p) && jv_pairs(final(acc)@)
                    == jv_pairs(old(acc)@) + p.0 && j - i == p.1
            },
            None => parse_members(s@.skip(i as int)) is None,
        },
    decreases s@.len() - i, 1int,
{
    let len = s.len();
    let ghost tail = s@.skip(i as int);
    if i == len {
        return None;
    }
    let b = s[i];
    assert(tail[0] == b);
    if b != 0x22 {
        return None;
    }
    let mut key: Vec<u8> = Vec::new();
    assert(tail.skip(1) =~= s@.skip(i + 1));
    match parse_string_at(s, i + 1, &mut key) {
        Some(p_end) => {
            proof {
                let kp = parse_string_body(s@.skip(i + 1))->Some_0;
                assert(key@ =~= kp.0);
            }
            if p_end == len {
                return None;
            }
            let colon = s[p_end];
            assert(tail[p_end - i] == colon);
            if colon != 0x3a {
                return None;
            }
            assert(tail.skip(p_end - i + 1) =~= s@.skip(p_end + 1));
            match parse_value_at(s, p_end + 1) {
                Some((v, q)) => {
                    if q == len {
                        return None;
                    }
                    let c = s[q];
                    assert(tail[q - i] == c);
                    acc.push((key, v));
                    let ghost acc1 = acc@;
                    let ghost entry = (parse_string_body(s@.skip(i + 1))->Some_0.0, jv(v));
                    proof {
                        lemma_jv_pairs(acc1);
                        lemma_jv_pairs(old(acc)@);
                        assert(jv_pairs(acc1) =~= jv_pairs(old(acc)@) + seq![entry]);
                    }
                    if c == 0x2c {
                        assert(tail.skip(q - i + 1) =~= s@.skip(q + 1));
                        match parse_members_at(s, q + 1, acc) {
                            Some(m) => {
                                proof {
                                    let p = parse_members(s@.skip(q + 1))->Some_0;
                                    assert(jv_pairs(acc@) =~= jv_pairs(old(acc)@) + (seq![entry]
                                        + p.0));
                                }
                                Some(m)
                            },
                            None => None,
                        }
                    } else if c == 0x7d {
                        proof {
                            let p = parse_members(tail)->Some_0;
                            assert(jv_pairs(acc@) =~= jv_pairs(old(acc)@) + p.0);
                        }
                        Some(q + 1)
                    } else {
                        None
                    }
                },
                None => None,
            }
        },
        None => None,
    }
}

/// Parses a whole document: the input must be consumed exactly, and only
/// the renderer's language is spoken (see `parse_value`); any other text
/// yields `None`, which callers report as a `Serialization` failure.
pub fn parse_json(s: &Vec<u8>) -> (r: Option<JsonValue>)
    ensures
        match r {
            Some(v) => json_doc(s@) == Some(v@),
            None => json_doc(s@) is None,
        },
{
    assert(s@.skip(0) =~= s@);
    match parse_value_at(s, 0) {
        Some((v, j)) => {
            if j == s.len() {
                Some(v)
            } else {
                None
            }
        },
        None => None,
    }
}

/// The canonical wire text of `v`.
pub fn render(v: &JsonValue) -> (r: Vec<u8>)
    ensures
        r@ == text_of(v@),
{
    let mut out: Vec<u8> = Vec::new();
    render_into(v, &mut out);
    assert(out@ =~= text_of(v@));
    out
}

/// The value bound to `key` in an object's pairs: the first match wins.
pub open spec fn lookup(pairs: Seq<(Seq<u8>, JsonVal)>, key: Seq<u8>) -> Option<JsonVal>
    decreases pairs.len(),
{
    if pairs.len() == 0 {
        None
    } else if pairs[0].0 == key {
        Some(pairs[0].1)
    } else {
        lookup(pairs.drop_first(), key)
    }
}

/// Lowercase hexadecimal digit for `n`, which must be below 16.
pub open spec fn hex_digit(n: u8) -> u8 {
    if n < 10 {
        (0x30 + n) as u8
    } else {
        (0x61 + (n - 10)) as u8
    }
}

/// How one byte of string content appears on the wire: quote, backslash
/// and control bytes are escaped, everything else passes through.
pub open spec fn escape_byte(b: u8) -> Seq<u8> {
    if b == 0x22 {
        seq![0x5c, 0x22]
    } else if b == 0x5c {
        seq![0x5c, 0x5c]
    } else if b == 0x08 {
        seq![0x5c, 0x62]
    } else if b == 0x09 {
        seq![0x5c, 0x74]
    } else if b == 0x0a {
        seq![0x5c, 0x6e]
    } else if b == 0x0c {
        seq![0x5c, 0x66]
    } else if b == 0x0d {
        seq![0x5c, 0x72]
    } else if b < 0x20 {
        seq![0x5c, 0x75, 0x30, 0x30, hex_digit(b / 16), hex_digit(b % 16)]
    } else {
        seq![b]
    }
}

/// String contents as written on the wire, without the enclosing quotes.
pub open spec fn text_of_string(s: Seq<u8>) -> Seq<u8>
    decreases s.len(),
{
    if s.len() == 0 {
        Seq::empty()
    } else {
        escape_byte(s[0]) + text_of_string(s.drop_first())
    }
}

/// The canonical wire text of a document: compact, no whitespace.
pub open spec fn text_of(v: JsonVal) -> Seq<u8>
    decreases v,
    via text_of_decreases
{
    match v {
        JsonVal::Null => seq![0x6e, 0x75, 0x6c, 0x6c],
        JsonVal::Bool(b) => if b {
            seq![0x74, 0x72, 0x75, 0x65]
        } else {
            seq![0x66, 0x61, 0x6c, 0x73, 0x65]
        },
        JsonVal::Num(d) => d,
        JsonVal::Str(s) => seq![0x22] + text_of_string(s) + seq![0x22],
        JsonVal::Arr(es) => seq![0x5b] + text_of_elems(es) + seq![0x5d],
        JsonVal::Obj(ps) => seq![0x7b] + text_of_members(ps) + seq![0x7d],
    }
}

/// Comma-separated wire text of array elements.
pub open spec fn text_of_elems(es: Seq<JsonVal>) -> Seq<u8>
    decreases es,
    via text_of_elems_decreases
{
    if es.len() == 0 {
        Seq::empty()
    } else if es.len() == 1 {
        text_of(es[0])
    } else {
        text_of(es[0]) + seq![0x2c] + text_of_elems(es.drop_first())
    }
}

/// Comma-separated wire text of object members.
pub open spec fn text_of_members(ps: Seq<(Seq<u8>, JsonVal)>) -> Seq<u8>
    decreases ps,
    via text_of_members_decreases
{
    if ps.len() == 0 {
        Seq::empty()
    } else {
        let member = seq![0x22] + text_of_string(ps[0].0) + seq![0x22, 0x3a] + text_of(ps[0].1);
        if ps.len() == 1 {
            member
        } else {
            member + seq![0x2c] + text_of_members(ps.drop_first())
        }
    }
}

#[via_fn]
proof fn text_of_decreases(v: JsonVal) {
}

#[via_fn]
proof fn text_of_elems_decreases(es: Seq<JsonVal>) {
    broadcast use vstd::seq::axiom_seq_index_decreases, vstd::seq::axiom_seq_subrange_decreases;

    if es.len() > 0 {
        assert(decreases_to!(es => es[0]));
        assert(es.drop_first() == es.subrange(1, es.len() as int));
        assert(decreases_to!(es => es.subrange(1, es.len() as int)));
    }
}

/// True when `b` is an ASCII decimal digit.
pub open spec fn is_digit(b: u8) -> bool {
    0x30 <= b <= 0x39
}

/// Length of the leading run of ASCII digits.
pub open spec fn digit_run(s: Seq<u8>) -> int
    decreases s.len(),
{
    if s.len() == 0 || !is_digit(s[0]) {
        0
    } else {
        1 + digit_run(s.drop_first())
    }
}

/// Value of one lowercase hexadecimal digit, as the renderer writes them.
pub open spec fn hex_val(b: u8) -> Option<u8> {
    if 0x30 <= b <= 0x39 {
        Some((b - 0x30) as u8)
    } else if 0x61 <= b <= 0x66 {
        Some((b - 0x61 + 10) as u8)
    } else {
        None
    }
}

/// The byte denoted by the short escape `\e`.
pub open spec fn unescaped(e: u8) -> u8 {
    if e == 0x22 {
        0x22
    } else if e == 0x5c {
        0x5c
    } else if e == 0x62 {
        0x08
    } else if e == 0x66 {
        0x0c
    } else if e == 0x6e {
        0x0a
    } else if e == 0x72 {
        0x0d
    } else {
        0x09
    }
}

/// Control bytes that have a short escape of their own.
pub open spec fn has_short_escape(b: u8) -> bool {
    b == 0x08 || b == 0x09 || b == 0x0a || b == 0x0c || b == 0x0d
}

/// Parses string contents after the opening quote, up to and including the
/// closing quote: the unescaped bytes and the count of wire bytes consumed.
/// Exactly the escape forms the renderer writes are accepted.
pub open spec fn parse_string_body(s: Seq<u8>) -> Option<(Seq<u8>, int)>
    decreases s.len(),
{
    if s.len() == 0 {
        None
    } else if s[0] == 0x22 {
        Some((Seq::empty(), 1))
    } else if s[0] == 0x5c {
        if s.len() < 2 {
            None
        } else {
            let e = s[1];
            if e == 0x22 || e == 0x5c || e == 0x62 || e == 0x66 || e == 0x6e || e == 0x72
                || e == 0x74 {
                match parse_string_body(s.skip(2)) {
                    Some((c, n)) => Some((seq![unescaped(e)] + c, 2 + n)),
                    None => None,
                }
            } else if e == 0x75 {
                if s.len() >= 6 && s[2] == 0x30 && s[3] == 0x30 && hex_val(s[4]) is Some
                    && hex_val(s[5]) is Some {
                    let b = (hex_val(s[4])->Some_0 * 16 + hex_val(s[5])->Some_0) as u8;
                    if b < 0x20 && !has_short_escape(b) {
                        match parse_string_body(s.skip(6)) {
                            Some((c, n)) => Some((seq![b] + c, 6 + n)),
                            None => None,
                        }
                    } else {
                        None
                    }
                } else {
                    None
                }
            } else {
                None
            }
        }
    } else if s[0] < 0x20 {
        None
    } else {
        match parse_string_body(s.skip(1)) {
            Some((c, n)) => Some((seq![s[0]] + c, 1 + n)),
            None => None,
        }
    }
}

/// Parses one document at the head of `s`: the document and the count of
/// bytes consumed. This is exactly the renderer's language, no wider: no
/// whitespace between tokens, numbers are nonempty runs of decimal digits
/// (no sign, fraction or exponent), and strings use only the escapes the
/// renderer writes. A document outside this language — compact output of
/// common JSON writers falls inside it — is no document here.
pub open spec fn parse_value(s: Seq<u8>) -> Option<(JsonVal, int)>
    decreases s.len(), 0int,
{
    if s.len() == 0 {
        None
    } else {
        let b = s[0];
        if b == 0x6e {
            if s.len() >= 4 && s[1] == 0x75 && s[2] == 0x6c && s[3] == 0x6c {
                Some((JsonVal::Null, 4))
            } else {
                None
            }
        } else if b == 0x74 {
            if s.len() >= 4 && s[1] == 0x72 && s[2] == 0x75 && s[3] == 0x65 {
                Some((JsonVal::Bool(true), 4))
            } else {
                None
            }
        } else if b == 0x66 {
            if s.len() >= 5 && s[1] == 0x61 && s[2] == 0x6c && s[3] == 0x73 && s[4] == 0x65 {
                Some((JsonVal::Bool(false), 5))
            } else {
                None
            }
        } else if b == 0x22 {
            match parse_string_body(s.skip(1)) {
                Some((c, n)) => Some((JsonVal::Str(c), 1 + n)),
                None => None,
            }
        } else if is_digit(b) {
            Some((JsonVal::Num(s.take(digit_run(s))), digit_run(s)))
        } else if b == 0x5b {
            if s.len() >= 2 && s[1] == 0x5d {
                Some((JsonVal::Arr(Seq::empty()), 2))
            } else {
                match parse_elems(s.skip(1)) {
                    Some((vs, n)) => Some((JsonVal::Arr(vs), 1 + n)),
                    None => None,
                }
            }
        } else if b == 0x7b {
            if s.len() >= 2 && s[1] == 0x7d {
                Some((JsonVal::Obj(Seq::empty()), 2))
            } else {
                match parse_members(s.skip(1)) {
                    Some((ps, n)) => Some((JsonVal::Obj(ps), 1 + n)),
                    None => None,
                }
            }
        } else {
            None
        }
    }
}

/// Parses `value (',' value)* ']'`: the elements and the count of bytes
/// consumed, the closing bracket included.
pub open spec fn parse_elems(s: Seq<u8>) -> Option<(Seq<JsonVal>, int)>
    decreases s.len(), 1int,
{
    if s.len() == 0 {
        None
    } else {
        match parse_value(s) {
            Some((v, n)) => if 0 <= n < s.len() {
                if s[n] == 0x2c {
                    match parse_elems(s.skip(n + 1)) {
                        Some((vs, m)) => Some((seq![v] + vs, n + 1 + m)),
                        None => None,
                    }
                } else if s[n] == 0x5d {
                    Some((seq![v], n + 1))
                } else {
                    None
                }
            } else {
                None
            },
            None => None,
        }
    }
}

/// Parses `string ':' value (',' member)* '}'`: the members and the count
/// of bytes consumed, the closing brace included.
pub open spec fn parse_members(s: Seq<u8>) -> Option<(Seq<(Seq<u8>, JsonVal)>, int)>
    decreases s.len(), 1int,
{
    if s.len() == 0 || s[0] != 0x22 {
        None
    } else {
        match parse_string_body(s.skip(1)) {
            Some((key, kn)) => {
                let p = 1 + kn;
                if 0 <= p < s.len() && s[p] == 0x3a {
                    match parse_value(s.skip(p + 1)) {
                        Some((v, n)) => {
                            let q = p + 1 + n;
                            if 0 <= q < s.len() {
                                if s[q] == 0x2c {
                                    match parse_members(s.skip(q + 1)) {
                                        Some((ms, m)) => Some(
                                            (seq![(key, v)] + ms, q + 1 + m),
                                        ),
                                        None => None,
                                    }
                                } else if s[q] == 0x7d {
                                    Some((seq![(key, v)], q + 1))
                                } else {
                                    None
                                }
                            } else {
                                None
                            }
                        },
                        None => None,
                    }
                } else {
                    None
                }
            },
            None => None,
        }
    }
}

/// Parses a whole document: the wire text must be consumed exactly, and
/// only the renderer's language is spoken (see `parse_value`).
pub open spec fn json_doc(s: Seq<u8>) -> Option<JsonVal> {
    match parse_value(s) {
        Some((v, n)) => if n == s.len() {
            Some(v)
        } else {
            None
        },
        None => None,
    }
}

#[via_fn]
proof fn text_of_members_decreases(ps: Seq<(Seq<u8>, JsonVal)>) {
    broadcast use vstd::seq::axiom_seq_index_decreases, vstd::seq::axiom_seq_subrange_decreases;

    if ps.len() > 0 {
        assert(decreases_to!(ps => ps[0]));
        assert(decreases_to!(ps[0] => ps[0].1));
        assert(ps.drop_first() == ps.subrange(1, ps.len() as int));
        assert(decreases_to!(ps => ps.subrange(1, ps.len() as int)));
    }
}

} // verus!

use vstd::prelude::*;

verus! {

/// Decimal value of a sequence of ASCII digit bytes, most significant first.
pub open spec fn dec_val(s: Seq<u8>) -> nat
    decreases s.len(),
{
    if s.len() == 0 {
        0
    } else {
        dec_val(s.drop_last()) * 10 + (s.last() - 0x30) as nat
    }
}

/// True when every byte of `s` is an ASCII digit.
pub open spec fn all_digits(s: Seq<u8>) -> bool {
    forall|i: int| 0 <= i < s.len() ==> is_digit(#[trigger] s[i])
}

/// True when the two byte sequences are equal.
pub fn bytes_eq(a: &[u8], b: &[u8]) -> (r: bool)
    ensures
        r == (a@ == b@),
{
    if a.len() != b.len() {
        return false;
    }
    let n = a.len();
    let mut i: usize = 0;
    while i < n
        invariant
            i <= n,
            n == a@.len() == b@.len(),
            forall|k: int| 0 <= k < i ==> a@[k] == b@[k],
        decreases n - i,
    {
        if a[i] != b[i] {
            return false;
        }
        i = i + 1;
    }
    proof {
        assert(a@ =~= b@);
    }
    true
}

impl JsonValue {
    /// The value bound to `key`, if this document is an object that has it.
    pub fn get<'a>(&'a self, key: &[u8]) -> (r: Option<&'a JsonValue>)
        ensures
            match r {
                Some(f) => match self@ {
                    JsonVal::Obj(ps) => lookup(ps, key@) == Some(f@),
                    _ => false,
                },
                None => match self@ {
                    JsonVal::Obj(ps) => lookup(ps, key@) is None,
                    _ => true,
                },
            },
    {
        match self {
            JsonValue::Obj(ps) => {
                let ghost all = jv_pairs(ps@);
                proof {
                    lemma_jv_pairs(ps@);
                    assert(self@ == JsonVal::Obj(all));
                }
                let n = ps.len();
                let mut i: usize = 0;
                assert(all.skip(0) =~= all);
                while i < n
                    invariant
                        i <= n,
                        n == ps@.len(),
                        all == jv_pairs(ps@),
                        self@ == JsonVal::Obj(all),
                        all.len() == n,
                        forall|k: int| 0 <= k < n ==> all[k] == (ps@[k].0@, jv(ps@[k].1)),
                        lookup(all, key@) == lookup(all.skip(i as int), key@),
                    decreases n - i,
                {
                    let ghost rest = all.skip(i as int);
                    assert(rest.len() == n - i);
                    assert(rest[0] == all[i as int]);
                    if bytes_eq(ps[i].0.as_slice(), key) {
                        assert(lookup(rest, key@) == Some(rest[0].1));
                        let f = &ps[i].1;
                        assert(f@ == jv(ps@[i as int].1));
                        assert(lookup(all, key@) == Some(f@));
                        return Some(f);
                    }
                    assert(lookup(rest, key@) == lookup(rest.drop_first(), key@));
                    assert(rest.drop_first() =~= all.skip(i + 1));
                    i = i + 1;
                }
                assert(all.skip(n as int) =~= Seq::<(Seq<u8>, JsonVal)>::empty());
                None
            },
            _ => None,
        }
    }

    /// The string contents, if this document is a string.
    pub fn as_str<'a>(&'a self) -> (r: Option<&'a Vec<u8>>)
        ensures
            match r {
                Some(s) => self@ == JsonVal::Str(s@),
                None => !(self@ is Str),
            },
    {
        match self {
            JsonValue::Str(s) => Some(s),
            _ => None,
        }
    }

    /// True when this document is an object.
    pub fn is_obj(&self) -> (r: bool)
        ensures
            r == (self@ is Obj),
    {
        match self {
            JsonValue::Obj(_) => true,
            _ => false,
        }
    }

    /// The truth value, if this document is a boolean.
    pub fn as_bool(&self) -> (r: Option<bool>)
        ensures
            match r {
                Some(b) => self@ == JsonVal::Bool(b),
                None => !(self@ is Bool),
            },
    {
        match self {
            JsonValue::Bool(b) => Some(*b),
            _ => None,
        }
    }

    /// The elements, if this document is an array.
    pub fn as_arr<'a>(&'a self) -> (r: Option<&'a Vec<JsonValue>>)
        ensures
            match r {
                Some(es) => self@ == JsonVal::Arr(jv_elems(es@)),
                None => !(self@ is Arr),
            },
    {
        match self {
            JsonValue::Arr(es) => Some(es),
            _ => None,
        }
    }

    /// The members, if this document is an object.
    pub fn as_obj<'a>(&'a self) -> (r: Option<&'a Vec<(Vec<u8>, JsonValue)>>)
        ensures
            match r {
                Some(ps) => self@ == JsonVal::Obj(jv_pairs(ps@)),
                None => !(self@ is Obj),
            },
    {
        match self {
            JsonValue::Obj(ps) => Some(ps),
            _ => None,
        }
    }

    /// The numeric value, if this document is a number whose digit run
    /// denotes a value that fits in `u64`.
    pub fn as_u64(&self) -> (r: Option<u64>)
        ensures
            match r {
                Some(n) => match self@ {
                    JsonVal::Num(d) => d.len() >= 1 && all_digits(d) && n == dec_val(d),
                    _ => false,
                },
                None => match self@ {
                    JsonVal::Num(d) => !(d.len() >= 1 && all_digits(d) && dec_val(d)
                        <= u64::MAX),
                    _ => true,
                },
            },
    {
        match self {
            JsonValue::Num(d) => {
                proof {
                    assert(self@ == JsonVal::Num(d@));
                }
                let n = d.len();
                if n == 0 {
                    return None;
                }
                let mut acc: u64 = 0;
                let mut i: usize = 0;
                while i < n
                    invariant
                        1 <= n == d@.len(),
                        i <= n,
                        self@ == JsonVal::Num(d@),
                        all_digits(d@.take(i as int)),
                        acc == dec_val(d@.take(i as int)),
                    decreases n - i,
                {
                    let b = d[i];
                    if !(0x30 <= b && b <= 0x39) {
                        proof {
                            assert(d@[i as int] == b);
                            assert(!all_digits(d@)) by {
                                assert(!is_digit(d@[i as int]));
                            }
                        }
                        return None;
                    }
                    let digit = (b - 0x30) as u64;
                    if acc > 1844674407370955161 || (acc == 1844674407370955161 && digit > 5) {
                        proof {
                            lemma_dec_val_extend(d@, i as int);
                            lemma_dec_val_grows(d@, i + 1);
                            assert(dec_val(d@) > u64::MAX);
                        }
                        return None;
                    }
                    acc = acc * 10 + digit;
                    proof {
                        assert(d@.take(i + 1).drop_last() =~= d@.take(i as int));
                        assert(d@.take(i + 1).last() == b);
                    }
                    i = i + 1;
                }
                proof {
                    assert(d@.take(n as int) =~= d@);
                }
                Some(acc)
            },
            _ => None,
        }
    }
}

/// Extending a digit prefix by one digit multiplies its value by ten and
/// adds the digit.
proof fn lemma_dec_val_extend(d: Seq<u8>, i: int)
    requires
        0 <= i < d.len(),
    ensures
        dec_val(d.take(i + 1)) == dec_val(d.take(i)) * 10 + (d[i] - 0x30) as nat,
{
    assert(d.take(i + 1).drop_last() =~= d.take(i));
    assert(d.take(i + 1).last() == d[i]);
}

/// A digit run's value never shrinks as it grows to the right.
proof fn lemma_dec_val_grows(d: Seq<u8>, i: int)
    requires
        0 <= i <= d.len(),
    ensures
        dec_val(d.take(i)) <= dec_val(d),
    decreases d.len() - i,
{
    if i == d.len() {
        assert(d.take(i) =~= d);
    } else {
        lemma_dec_val_extend(d, i);
        lemma_dec_val_grows(d, i + 1);
    }
}

/// A fresh document equal to `v`.
pub fn clone_value(v: &JsonValue) -> (r: JsonValue)
    ensures
        r@ == v@,
    decreases v, 0int,
{
    match v {
        JsonValue::Null => JsonValue::Null,
        JsonValue::Bool(b) => JsonValue::Bool(*b),
        JsonValue::Num(d) => {
            let c = copy_range(d, 0, d.len());
            assert(c@ =~= d@);
            JsonValue::Num(c)
        },
        JsonValue::Str(s) => {
            let c = copy_range(s, 0, s.len());
            assert(c@ =~= s@);
            JsonValue::Str(c)
        },
        JsonValue::Arr(es) => {
            let mut out: Vec<JsonValue> = Vec::new();
            clone_elems(es, 0, &mut out);
            proof {
                lemma_jv_elems(out@);
                lemma_jv_elems(es@);
                assert(es@.skip(0) =~= es@);
                assert(jv_elems(out@) =~= jv_elems(es@));
            }
            JsonValue::Arr(out)
        },
        JsonValue::Obj(ps) => {
            let mut out: Vec<(Vec<u8>, JsonValue)> = Vec::new();
            clone_pairs(ps, 0, &mut out);
            proof {
                lemma_jv_pairs(out@);
                lemma_jv_pairs(ps@);
                assert(ps@.skip(0) =~= ps@);
                assert(jv_pairs(out@) =~= jv_pairs(ps@));
            }
            JsonValue::Obj(out)
        },
    }
}

/// Pushes copies of `es[i..]` onto `out`.
fn clone_elems(es: &Vec<JsonValue>, i: usize, out: &mut Vec<JsonValue>)
    requires
        i <= es@.len(),
    ensures
        final(out)@.len() == old(out)@.len() + es@.len() - i,
        forall|k: int| 0 <= k < old(out)@.len() ==> final(out)@[k] == old(out)@[k],
        forall|k: int|
            old(out)@.len() <= k < final(out)@.len() ==> jv(#[trigger] final(out)@[k]) == jv(
                es@[i + k - old(out)@.len()],
            ),
    decreases es, es@.len() - i, 1int,
{
    if i == es.len() {
        return ;
    }
    proof {
        broadcast use vstd::std_specs::vec::axiom_vec_index_decreases;

        assert(decreases_to!(es => es[i as int]));
    }
    let c = clone_value(&es[i]);
    out.push(c);
    clone_elems(es, i + 1, out);
}

/// Pushes copies of the members `ps[i..]` onto `out`.
fn clone_pairs(ps: &Vec<(Vec<u8>, JsonValue)>, i: usize, out: &mut Vec<(Vec<u8>, JsonValue)>)
    requires
        i <= ps@.len(),
    ensures
        final(out)@.len() == old(out)@.len() + ps@.len() - i,
        forall|k: int| 0 <= k < old(out)@.len() ==> final(out)@[k] == old(out)@[k],
        forall|k: int|
            old(out)@.len() <= k < final(out)@.len() ==> (#[trigger] final(out)@[k]).0@ == ps@[i
                + k - old(out)@.len()].0@ && jv(final(out)@[k].1) == jv(ps@[i + k - old(out)@.len()].1),
    decreases ps, ps@.len() - i, 1int,
{
    if i == ps.len() {
        return ;
    }
    proof {
        broadcast use vstd::std_specs::vec::axiom_vec_index_decreases;

        assert(decreases_to!(ps => ps[i as int]));
        assert(decreases_to!(ps[i as int] => ps[i as int].1));
    }
    let key = copy_range(&ps[i].0, 0, ps[i].0.len());
    let val = clone_value(&ps[i].1);
    out.push((key, val));
    clone_pairs(ps, i + 1, out);
}

} // verus!

use vstd::string::StrSliceExecFns;
use vstd::string::StringSliceAdditionalSpecFns;

verus! {

/// The strings a sequence of documents holds, when every element is a
/// string.
pub open spec fn strings_of(es: Seq<JsonVal>) -> Option<Seq<Seq<u8>>>
    decreases es.len(),
{
    if es.len() == 0 {
        Some(Seq::empty())
    } else {
        match (es[0], strings_of(es.drop_first())) {
            (JsonVal::Str(s), Some(rest)) => Some(seq![s] + rest),
            _ => None,
        }
    }
}

/// The abstract byte strings a vector of them holds.
pub open spec fn byte_views(s: Seq<Vec<u8>>) -> Seq<Seq<u8>> {
    s.map_values(|v: Vec<u8>| v@)
}

/// Decodes a sequence of string documents; any other element spoils the
/// whole sequence.
pub fn decode_strings(es: &Vec<JsonValue>) -> (r: Option<Vec<Vec<u8>>>)
    ensures
        match r {
            Some(ss) => strings_of(jv_elems(es@)) == Some(byte_views(ss@)),
            None => strings_of(jv_elems(es@)) is None,
        },
{
    let ghost evs = jv_elems(es@);
    proof {
        lemma_jv_elems(es@);
        assert(evs.skip(0) =~= evs);
        assert(byte_views(Seq::<Vec<u8>>::empty()) =~= Seq::<Seq<u8>>::empty());
    }
    let n = es.len();
    let mut out: Vec<Vec<u8>> = Vec::new();
    let mut i: usize = 0;
    while i < n
        invariant
            i <= n,
            n == es@.len(),
            evs == jv_elems(es@),
            evs.len() == n,
            forall|k: int| 0 <= k < n ==> evs[k] == jv(es@[k]),
            match strings_of(evs.skip(i as int)) {
                Some(rest) => strings_of(evs) == Some(byte_views(out@) + rest),
                None => strings_of(evs) is None,
            },
        decreases n - i,
    {
        let ghost rest = evs.skip(i as int);
        assert(rest.len() == n - i);
        assert(rest[0] == evs[i as int]);
        assert(rest.drop_first() =~= evs.skip(i + 1));
        match es[i].as_str() {
            Some(s) => {
                let ghost before = out@;
                out.push(copy_bytes(s));
                proof {
                    assert(byte_views(out@) =~= byte_views(before).push(s@));
                    match strings_of(evs.skip(i + 1)) {
                        Some(r2) => {
                            assert(strings_of(rest) == Some(seq![s@] + r2));
                            assert(byte_views(before) + (seq![s@] + r2) =~= byte_views(out@)
                                + r2);
                        },
                        None => {
                            assert(strings_of(rest) is None);
                        },
                    }
                }
            },
            None => {
                proof {
                    assert(strings_of(rest) is None);
                }
                return None;
            },
        }
        i = i + 1;
    }
    proof {
        assert(evs.skip(n as int) =~= Seq::<JsonVal>::empty());
        assert(byte_views(out@) + Seq::<Seq<u8>>::empty() =~= byte_views(out@));
    }
    Some(out)
}

/// A fresh copy of these bytes.
pub fn copy_bytes(s: &Vec<u8>) -> (r: Vec<u8>)
    ensures
        r@ == s@,
{
    let r = copy_range(s, 0, s.len());
    assert(r@ =~= s@);
    r
}

/// The UTF-8 bytes of a string slice, as a fresh vector.
pub fn str_bytes(s: &str) -> (r: Vec<u8>)
    ensures
        r@ == s.spec_bytes(),
{
    s.as_bytes_vec()
}

} // verus!

verus! {

/// A document whose numbers are nonempty digit runs: everything the
/// renderer writes for such a document, the parser reads back.
pub open spec fn wf_val(v: JsonVal) -> bool
    decreases v,
    via wf_val_decreases
{
    match v {
        JsonVal::Null => true,
        JsonVal::Bool(_) => true,
        JsonVal::Num(d) => d.len() >= 1 && all_digits(d),
        JsonVal::Str(_) => true,
        JsonVal::Arr(es) => wf_elems(es),
        JsonVal::Obj(ps) => wf_pairs(ps),
    }
}

/// Every element is well-formed.
pub open spec fn wf_elems(es: Seq<JsonVal>) -> bool
    decreases es,
    via wf_elems_decreases
{
    if es.len() == 0 {
        true
    } else {
        wf_val(es[0]) && wf_elems(es.drop_first())
    }
}

/// Every member's value is well-formed.
pub open spec fn wf_pairs(ps: Seq<(Seq<u8>, JsonVal)>) -> bool
    decreases ps,
    via wf_pairs_decreases
{
    if ps.len() == 0 {
        true
    } else {
        wf_val(ps[0].1) && wf_pairs(ps.drop_first())
    }
}

#[via_fn]
proof fn wf_val_decreases(v: JsonVal) {
}

#[via_fn]
proof fn wf_elems_decreases(es: Seq<JsonVal>) {
    broadcast use vstd::seq::axiom_seq_index_decreases, vstd::seq::axiom_seq_subrange_decreases;

    if es.len() > 0 {
        assert(decreases_to!(es => es[0]));
        assert(es.drop_first() == es.subrange(1, es.len() as int));
        assert(decreases_to!(es => es.subrange(1, es.len() as int)));
    }
}

#[via_fn]
proof fn wf_pairs_decreases(ps: Seq<(Seq<u8>, JsonVal)>) {
    broadcast use vstd::seq::axiom_seq_index_decreases, vstd::seq::axiom_seq_subrange_decreases;

    if ps.len() > 0 {
        assert(decreases_to!(ps => ps[0]));
        assert(decreases_to!(ps[0] => ps[0].1));
        assert(ps.drop_first() == ps.subrange(1, ps.len() as int));
        assert(decreases_to!(ps => ps.subrange(1, ps.len() as int)));
    }
}

/// Bytes that may follow a value inside a larger document without
/// extending it: a separator, a closing bracket or brace, or the end.
pub open spec fn boundary(rest: Seq<u8>) -> bool {
    rest.len() == 0 || rest[0] == 0x2c || rest[0] == 0x5d || rest[0] == 0x7d
}

/// A digit run followed by a non-digit is read back whole.
proof fn lemma_digit_run_concat(d: Seq<u8>, rest: Seq<u8>)
    requires
        all_digits(d),
        rest.len() == 0 || !is_digit(rest[0]),
    ensures
        digit_run(d + rest) == d.len(),
    decreases d.len(),
{
    if d.len() == 0 {
        assert(d + rest =~= rest);
    } else {
        assert((d + rest)[0] == d[0]);
        assert((d + rest).drop_first() =~= d.drop_first() + rest);
        assert(all_digits(d.drop_first()));
        lemma_digit_run_concat(d.drop_first(), rest);
    }
}

/// Rendered string contents followed by the closing quote are parsed back
/// to the original bytes, consuming through that quote.
proof fn lemma_parse_string_text(s: Seq<u8>, rest: Seq<u8>)
    ensures
        parse_string_body(text_of_string(s) + seq![0x22] + rest) == Some(
            (s, text_of_string(s).len() + 1 as int),
        ),
    decreases s.len(),
{
    let input = text_of_string(s) + seq![0x22] + rest;
    if s.len() == 0 {
        assert(text_of_string(s) =~= Seq::<u8>::empty());
        assert(input[0] == 0x22);
        assert(Seq::<u8>::empty() =~= s);
    } else {
        let b = s[0];
        let e = escape_byte(b);
        lemma_parse_string_text(s.drop_first(), rest);
        let sub = text_of_string(s.drop_first()) + seq![0x22] + rest;
        assert(text_of_string(s) =~= e + text_of_string(s.drop_first()));
        assert(input =~= e + sub);
        assert(seq![b] + s.drop_first() =~= s);
        if b == 0x22 || b == 0x5c {
            assert(input[0] == 0x5c && input[1] == b);
            assert(input.skip(2) =~= sub);
            assert(unescaped(b) == b);
        } else if b == 0x08 || b == 0x09 || b == 0x0a || b == 0x0c || b == 0x0d {
            assert(input[0] == 0x5c);
            assert(input.skip(2) =~= sub);
            if b == 0x08 {
                assert(input[1] == 0x62 && unescaped(0x62) == b);
            } else if b == 0x09 {
                assert(input[1] == 0x74 && unescaped(0x74) == b);
            } else if b == 0x0a {
                assert(input[1] == 0x6e && unescaped(0x6e) == b);
            } else if b == 0x0c {
                assert(input[1] == 0x66 && unescaped(0x66) == b);
            } else {
                assert(input[1] == 0x72 && unescaped(0x72) == b);
            }
        } else if b < 0x20 {
            assert(input[0] == 0x5c && input[1] == 0x75 && input[2] == 0x30 && input[3] == 0x30
                && input[4] == hex_digit(b / 16) && input[5] == hex_digit(b % 16));
            assert(hex_val(hex_digit(b / 16)) == Some(b / 16));
            assert(hex_val(hex_digit(b % 16)) == Some(b % 16));
            assert((b / 16) * 16 + (b % 16) == b);
            assert(input.skip(6) =~= sub);
            assert(!has_short_escape(b));
        } else {
            assert(input[0] == b);
            assert(b != 0x22 && b != 0x5c && !(b < 0x20));
            assert(input.skip(1) =~= sub);
        }
    }
}

/// The first byte a well-formed document renders to, by its kind: the
/// renderer never opens a value with a separator or a closing bracket.
proof fn lemma_text_first(v: JsonVal)
    requires
        wf_val(v),
    ensures
        text_of(v).len() >= 1,
        !boundary(text_of(v)),
        text_of(v)[0] != 0x3a,
{
    match v {
        JsonVal::Num(d) => {
            assert(text_of(v)[0] == d[0]);
            assert(is_digit(d[0]));
        },
        _ => {},
    }
}

} // verus!

verus! {

/// A rendered well-formed document, followed by a boundary, parses back
/// to itself, consuming exactly its own text.
pub proof fn lemma_parse_value_text(v: JsonVal, rest: Seq<u8>)
    requires
        wf_val(v),
        boundary(rest),
    ensures
        parse_value(text_of(v) + rest) == Some((v, text_of(v).len() as int)),
    decreases v, 0int,
{
    broadcast use vstd::seq::axiom_seq_index_decreases, vstd::seq::axiom_seq_subrange_decreases;

    let t = text_of(v);
    let input = t + rest;
    match v {
        JsonVal::Null => {
            assert(input[0] == 0x6e && input[1] == 0x75 && input[2] == 0x6c && input[3] == 0x6c);
        },
        JsonVal::Bool(b) => {
            if b {
                assert(input[0] == 0x74 && input[1] == 0x72 && input[2] == 0x75 && input[3]
                    == 0x65);
            } else {
                assert(input[0] == 0x66 && input[1] == 0x61 && input[2] == 0x6c && input[3]
                    == 0x73 && input[4] == 0x65);
            }
        },
        JsonVal::Num(d) => {
            assert(input[0] == d[0]);
            assert(is_digit(d[0]));
            lemma_digit_run_concat(d, rest);
            assert(input.take(d.len() as int) =~= d);
        },
        JsonVal::Str(s) => {
            assert(input[0] == 0x22);
            assert(input.skip(1) =~= text_of_string(s) + seq![0x22] + rest);
            lemma_parse_string_text(s, rest);
        },
        JsonVal::Arr(es) => {
            assert(input[0] == 0x5b);
            if es.len() == 0 {
                assert(text_of_elems(es) =~= Seq::<u8>::empty());
                assert(t =~= seq![0x5b, 0x5d]);
                assert(input[1] == 0x5d);
                assert(Seq::<JsonVal>::empty() =~= es);
            } else {
                assert(wf_val(es[0]));
                lemma_text_first(es[0]);
                assert(input.skip(1) =~= text_of_elems(es) + seq![0x5d] + rest);
                assert(text_of_elems(es)[0] == text_of(es[0])[0]);
                assert(input[1] == text_of(es[0])[0]);
                assert(input[1] != 0x5d);
                assert(decreases_to!(es => es[0]));
                lemma_parse_elems_text(es, rest);
            }
        },
        JsonVal::Obj(ps) => {
            assert(input[0] == 0x7b);
            if ps.len() == 0 {
                assert(text_of_members(ps) =~= Seq::<u8>::empty());
                assert(t =~= seq![0x7b, 0x7d]);
                assert(input[1] == 0x7d);
                assert(Seq::<(Seq<u8>, JsonVal)>::empty() =~= ps);
            } else {
                assert(input.skip(1) =~= text_of_members(ps) + seq![0x7d] + rest);
                assert(text_of_members(ps)[0] == 0x22);
                assert(input[1] == 0x22);
                lemma_parse_members_text(ps, rest);
            }
        },
    }
}

/// Rendered well-formed elements, followed by the closing bracket and a
/// boundary, parse back to themselves, consuming through that bracket.
pub proof fn lemma_parse_elems_text(es: Seq<JsonVal>, rest: Seq<u8>)
    requires
        es.len() >= 1,
        wf_elems(es),
        boundary(rest),
    ensures
        parse_elems(text_of_elems(es) + seq![0x5d] + rest) == Some(
            (es, text_of_elems(es).len() + 1 as int),
        ),
    decreases es, 1int,
{
    broadcast use vstd::seq::axiom_seq_index_decreases, vstd::seq::axiom_seq_subrange_decreases;

    let t = text_of_elems(es);
    let input = t + seq![0x5d] + rest;
    let t0 = text_of(es[0]);
    assert(wf_val(es[0]));
    assert(decreases_to!(es => es[0]));
    if es.len() == 1 {
        assert(t =~= t0);
        let after = seq![0x5d] + rest;
        assert(input =~= t0 + after);
        lemma_parse_value_text(es[0], after);
        assert(parse_value(input) == Some((es[0], t0.len() as int)));
        assert(input[t0.len() as int] == 0x5d);
        assert(seq![es[0]] =~= es);
    } else {
        let tail = es.drop_first();
        assert(tail == es.subrange(1, es.len() as int));
        assert(decreases_to!(es => es.subrange(1, es.len() as int)));
        assert(t =~= t0 + seq![0x2c] + text_of_elems(tail));
        let after = seq![0x2c] + text_of_elems(tail) + seq![0x5d] + rest;
        assert(input =~= t0 + after);
        lemma_parse_value_text(es[0], after);
        assert(parse_value(input) == Some((es[0], t0.len() as int)));
        assert(input[t0.len() as int] == 0x2c);
        assert(input.skip(t0.len() + 1 as int) =~= text_of_elems(tail) + seq![0x5d] + rest);
        assert(wf_elems(tail));
        lemma_parse_elems_text(tail, rest);
        assert(seq![es[0]] + tail =~= es);
    }
}

/// Rendered well-formed members, followed by the closing brace and a
/// boundary, parse back to themselves, consuming through that brace.
#[verifier::rlimit(80)]
pub proof fn lemma_parse_members_text(ps: Seq<(Seq<u8>, JsonVal)>, rest: Seq<u8>)
    requires
        ps.len() >= 1,
        wf_pairs(ps),
        boundary(rest),
    ensures
        parse_members(text_of_members(ps) + seq![0x7d] + rest) == Some(
            (ps, text_of_members(ps).len() + 1 as int),
        ),
    decreases ps, 1int,
{
    broadcast use vstd::seq::axiom_seq_index_decreases, vstd::seq::axiom_seq_subrange_decreases;

    let t = text_of_members(ps);
    let input = t + seq![0x7d] + rest;
    let k = ps[0].0;
    let v0 = ps[0].1;
    let member = seq![0x22] + text_of_string(k) + seq![0x22, 0x3a] + text_of(v0);
    let kl = text_of_string(k).len() as int;
    assert(wf_val(v0));
    assert(decreases_to!(ps => ps[0]));
    assert(decreases_to!(ps[0] => ps[0].1));
    assert((k, v0) == ps[0]);
    if ps.len() == 1 {
        assert(t =~= member);
        assert(input[0] == 0x22);
        let rest1 = seq![0x3a] + text_of(v0) + seq![0x7d] + rest;
        assert(input.skip(1) =~= text_of_string(k) + seq![0x22] + rest1);
        lemma_parse_string_text(k, rest1);
        assert(parse_string_body(input.skip(1)) == Some((k, kl + 1)));
        let p = kl + 2;
        assert(input[p] == 0x3a);
        let after = seq![0x7d] + rest;
        assert(input.skip(p + 1) =~= text_of(v0) + after);
        lemma_parse_value_text(v0, after);
        let q = p + 1 + text_of(v0).len();
        assert(input[q] == 0x7d);
        assert(seq![(k, v0)] =~= ps);
    } else {
        let tail = ps.drop_first();
        assert(tail == ps.subrange(1, ps.len() as int));
        assert(decreases_to!(ps => ps.subrange(1, ps.len() as int)));
        assert(t =~= member + seq![0x2c] + text_of_members(tail));
        assert(input[0] == 0x22);
        let rest1 = seq![0x3a] + text_of(v0) + seq![0x2c] + text_of_members(tail) + seq![0x7d]
            + rest;
        assert(input.skip(1) =~= text_of_string(k) + seq![0x22] + rest1);
        lemma_parse_string_text(k, rest1);
        assert(parse_string_body(input.skip(1)) == Some((k, kl + 1)));
        let p = kl + 2;
        assert(input[p] == 0x3a);
        let after = seq![0x2c] + text_of_members(tail) + seq![0x7d] + rest;
        assert(input.skip(p + 1) =~= text_of(v0) + after);
        lemma_parse_value_text(v0, after);
        let q = p + 1 + text_of(v0).len();
        assert(input[q] == 0x2c);
        assert(input.skip(q + 1) =~= text_of_members(tail) + seq![0x7d] + rest);
        assert(wf_pairs(tail));
        lemma_parse_members_text(tail, rest);
        assert(seq![(k, v0)] + tail =~= ps);
    }
}

/// The round trip of the wire format: a well-formed document's rendered
/// text parses back to exactly that document.
pub proof fn lemma_render_parse(v: JsonVal)
    requires
        wf_val(v),
    ensures
        json_doc(text_of(v)) == Some(v),
{
    lemma_parse_value_text(v, Seq::empty());
    assert(text_of(v) + Seq::<u8>::empty() =~= text_of(v));
}

} // verus!

verus! {

/// A prefix of length `k + n` splits at `k`.
proof fn lemma_take_split(s: Seq<u8>, k: int, n: int)
    requires
        0 <= k,
        0 <= n,
        k + n <= s.len(),
    ensures
        s.take(k + n) =~= s.take(k) + s.skip(k).take(n),
{
}

/// A digit run is digits, no longer than the input.
proof fn lemma_digit_run_sound(s: Seq<u8>)
    ensures
        0 <= digit_run(s) <= s.len(),
        all_digits(s.take(digit_run(s))),
        s.len() > 0 && is_digit(s[0]) ==> digit_run(s) >= 1,
    decreases s.len(),
{
    if s.len() == 0 || !is_digit(s[0]) {
        assert(s.take(0) =~= Seq::<u8>::empty());
    } else {
        lemma_digit_run_sound(s.drop_first());
        let k = digit_run(s);
        assert(k == 1 + digit_run(s.drop_first()));
        assert(s.take(k) =~= seq![s[0]] + s.drop_first().take(k - 1));
        let t = s.take(k);
        assert forall|i: int| 0 <= i < t.len() implies is_digit(t[i]) by {
            if i == 0 {
                assert(t[0] == s[0]);
            } else {
                assert(t[i] == s.drop_first().take(k - 1)[i - 1]);
            }
        }
    }
}

/// Whatever string contents the parser reads, the renderer writes back as
/// exactly the consumed input: the escape forms accepted are the ones
/// written.
#[verifier::rlimit(80)]
proof fn lemma_parse_string_sound(s: Seq<u8>)
    ensures
        match parse_string_body(s) {
            Some(p) => 1 <= p.1 <= s.len() && s.take(p.1) == text_of_string(p.0) + seq![0x22],
            None => true,
        },
    decreases s.len(),
{
    if s.len() == 0 {
    } else if s[0] == 0x22 {
        assert(s.take(1) =~= text_of_string(Seq::<u8>::empty()) + seq![0x22]);
    } else if s[0] == 0x5c {
        if s.len() >= 2 {
            let e = s[1];
            if e == 0x22 || e == 0x5c || e == 0x62 || e == 0x66 || e == 0x6e || e == 0x72
                || e == 0x74 {
                lemma_parse_string_sound(s.skip(2));
                match parse_string_body(s.skip(2)) {
                    Some(p) => {
                        let b = unescaped(e);
                        assert(escape_byte(b) =~= seq![0x5c, e]);
                        assert((seq![b] + p.0)[0] == b);
                        assert((seq![b] + p.0).drop_first() =~= p.0);
                        assert(text_of_string(seq![b] + p.0) == escape_byte(b) + text_of_string(
                            p.0,
                        ));
                        lemma_take_split(s, 2, p.1);
                        assert(s.take(2) =~= seq![0x5c, e]);
                        assert((seq![0x5c, e] + text_of_string(p.0)) + seq![0x22] =~= seq![
                            0x5c,
                            e,
                        ] + (text_of_string(p.0) + seq![0x22]));
                        assert(s.take(2 + p.1) == text_of_string(seq![b] + p.0) + seq![0x22]);
                    },
                    None => {},
                }
            } else if e == 0x75 {
                if s.len() >= 6 && s[2] == 0x30 && s[3] == 0x30 && hex_val(s[4]) is Some
                    && hex_val(s[5]) is Some {
                    let h4 = hex_val(s[4])->Some_0;
                    let h5 = hex_val(s[5])->Some_0;
                    let b = (h4 * 16 + h5) as u8;
                    if b < 0x20 && !has_short_escape(b) {
                        lemma_parse_string_sound(s.skip(6));
                        match parse_string_body(s.skip(6)) {
                            Some(p) => {
                                assert(h4 < 16 && h5 < 16);
                                assert(b / 16 == h4 && b % 16 == h5);
                                assert(hex_digit(h4) == s[4] && hex_digit(h5) == s[5]);
                                assert(escape_byte(b) =~= seq![0x5c, 0x75, 0x30, 0x30, s[4], s[5]]);
                                assert((seq![b] + p.0)[0] == b);
                                assert((seq![b] + p.0).drop_first() =~= p.0);
                                assert(text_of_string(seq![b] + p.0) == escape_byte(b)
                                    + text_of_string(p.0));
                                lemma_take_split(s, 6, p.1);
                                let six = seq![0x5cu8, 0x75, 0x30, 0x30, s[4], s[5]];
                                assert(s.take(6) =~= six);
                                assert((six + text_of_string(p.0)) + seq![0x22] =~= six + (
                                text_of_string(p.0) + seq![0x22]));
                                assert(s.take(6 + p.1) == text_of_string(seq![b] + p.0) + seq![
                                    0x22,
                                ]);
                            },
                            None => {},
                        }
                    }
                }
            }
        }
    } else if s[0] < 0x20 {
    } else {
        lemma_parse_string_sound(s.skip(1));
        match parse_string_body(s.skip(1)) {
            Some(p) => {
                let b = s[0];
                assert(escape_byte(b) =~= seq![b]);
                assert((seq![b] + p.0)[0] == b);
                assert((seq![b] + p.0).drop_first() =~= p.0);
                assert(text_of_string(seq![b] + p.0) == escape_byte(b) + text_of_string(p.0));
                lemma_take_split(s, 1, p.1);
                assert(s.take(1) =~= seq![b]);
                assert((seq![b] + text_of_string(p.0)) + seq![0x22] =~= seq![b] + (text_of_string(
                    p.0,
                ) + seq![0x22]));
                assert(s.take(1 + p.1) == text_of_string(seq![b] + p.0) + seq![0x22]);
            },
            None => {},
        }
    }
}

} // verus!

verus! {

/// Whatever document the parser reads, the renderer writes back as exactly
/// the consumed input: the parser accepts only the renderer's language.
pub proof fn lemma_parse_value_sound(s: Seq<u8>)
    ensures
        match parse_value(s) {
            Some(p) => wf_val(p.0) && 1 <= p.1 <= s.len() && s.take(p.1) == text_of(p.0),
            None => true,
        },
    decreases s.len(), 0int,
{
    if s.len() == 0 {
        return ;
    }
    let b = s[0];
    if b == 0x6e {
        if s.len() >= 4 && s[1] == 0x75 && s[2] == 0x6c && s[3] == 0x6c {
            assert(s.take(4) =~= seq![0x6e, 0x75, 0x6c, 0x6c]);
        }
    } else if b == 0x74 {
        if s.len() >= 4 && s[1] == 0x72 && s[2] == 0x75 && s[3] == 0x65 {
            assert(s.take(4) =~= seq![0x74, 0x72, 0x75, 0x65]);
        }
    } else if b == 0x66 {
        if s.len() >= 5 && s[1] == 0x61 && s[2] == 0x6c && s[3] == 0x73 && s[4] == 0x65 {
            assert(s.take(5) =~= seq![0x66, 0x61, 0x6c, 0x73, 0x65]);
        }
    } else if b == 0x22 {
        lemma_parse_string_sound(s.skip(1));
        match parse_string_body(s.skip(1)) {
            Some(p) => {
                lemma_take_split(s, 1, p.1);
                assert(s.take(1) =~= seq![0x22]);
                assert((seq![0x22] + text_of_string(p.0)) + seq![0x22] =~= seq![0x22] + (
                text_of_string(p.0) + seq![0x22]));
                assert(s.take(1 + p.1) == text_of(JsonVal::Str(p.0)));
            },
            None => {},
        }
    } else if is_digit(b) {
        lemma_digit_run_sound(s);
    } else if b == 0x5b {
        if s.len() >= 2 && s[1] == 0x5d {
            assert(text_of_elems(Seq::<JsonVal>::empty()) == Seq::<u8>::empty());
            assert(text_of(JsonVal::Arr(Seq::empty())) =~= seq![0x5b, 0x5d]);
            assert(s.take(2) =~= seq![0x5b, 0x5d]);
        } else {
            lemma_parse_elems_sound(s.skip(1));
            match parse_elems(s.skip(1)) {
                Some(p) => {
                    lemma_take_split(s, 1, p.1);
                    assert(s.take(1) =~= seq![0x5b]);
                    assert((seq![0x5b] + text_of_elems(p.0)) + seq![0x5d] =~= seq![0x5b] + (
                    text_of_elems(p.0) + seq![0x5d]));
                    assert(s.take(1 + p.1) == text_of(JsonVal::Arr(p.0)));
                },
                None => {},
            }
        }
    } else if b == 0x7b {
        if s.len() >= 2 && s[1] == 0x7d {
            assert(text_of_members(Seq::<(Seq<u8>, JsonVal)>::empty()) == Seq::<u8>::empty());
            assert(text_of(JsonVal::Obj(Seq::empty())) =~= seq![0x7b, 0x7d]);
            assert(s.take(2) =~= seq![0x7b, 0x7d]);
        } else {
            lemma_parse_members_sound(s.skip(1));
            match parse_members(s.skip(1)) {
                Some(p) => {
                    lemma_take_split(s, 1, p.1);
                    assert(s.take(1) =~= seq![0x7b]);
                    assert((seq![0x7b] + text_of_members(p.0)) + seq![0x7d] =~= seq![0x7b] + (
                    text_of_members(p.0) + seq![0x7d]));
                    assert(s.take(1 + p.1) == text_of(JsonVal::Obj(p.0)));
                },
                None => {},
            }
        }
    }
}

/// Whatever elements the parser reads up to a closing bracket, the
/// renderer writes back as exactly the consumed input.
pub proof fn lemma_parse_elems_sound(s: Seq<u8>)
    ensures
        match parse_elems(s) {
            Some(p) => p.0.len() >= 1 && wf_elems(p.0) && 1 <= p.1 <= s.len() && s.take(p.1)
                == text_of_elems(p.0) + seq![0x5d],
            None => true,
        },
    decreases s.len(), 1int,
{
    if s.len() == 0 {
        return ;
    }
    lemma_parse_value_sound(s);
    match parse_value(s) {
        Some(pv) => {
            let v = pv.0;
            let n = pv.1;
            if 0 <= n < s.len() {
                if s[n] == 0x2c {
                    lemma_parse_elems_sound(s.skip(n + 1));
                    match parse_elems(s.skip(n + 1)) {
                        Some(pe) => {
                            let vs = pe.0;
                            let m = pe.1;
                            let es = seq![v] + vs;
                            assert(es[0] == v);
                            assert(es.drop_first() =~= vs);
                            assert(wf_elems(es));
                            assert(es.len() >= 2);
                            assert(text_of_elems(es) == text_of(v) + seq![0x2c] + text_of_elems(
                                vs,
                            ));
                            lemma_take_split(s, n + 1, m);
                            lemma_take_split(s, n, 1);
                            assert(s.skip(n).take(1) =~= seq![0x2c]);
                            assert(s.take(n + 1) == text_of(v) + seq![0x2c]);
                            assert((text_of(v) + seq![0x2c] + text_of_elems(vs)) + seq![0x5d] =~= (
                            text_of(v) + seq![0x2c]) + (text_of_elems(vs) + seq![0x5d]));
                            assert(s.take(n + 1 + m) == text_of_elems(es) + seq![0x5d]);
                        },
                        None => {},
                    }
                } else if s[n] == 0x5d {
                    let es = seq![v];
                    assert(es[0] == v);
                    assert(es.drop_first() =~= Seq::<JsonVal>::empty());
                    assert(wf_elems(Seq::<JsonVal>::empty()));
                    assert(wf_elems(es));
                    assert(text_of_elems(es) == text_of(v));
                    lemma_take_split(s, n, 1);
                    assert(s.skip(n).take(1) =~= seq![0x5d]);
                    assert(s.take(n + 1) == text_of_elems(es) + seq![0x5d]);
                }
            }
        },
        None => {},
    }
}

/// Whatever members the parser reads up to a closing brace, the renderer
/// writes back as exactly the consumed input.
#[verifier::rlimit(80)]
pub proof fn lemma_parse_members_sound(s: Seq<u8>)
    ensures
        match parse_members(s) {
            Some(p) => p.0.len() >= 1 && wf_pairs(p.0) && 1 <= p.1 <= s.len() && s.take(p.1)
                == text_of_members(p.0) + seq![0x7d],
            None => true,
        },
    decreases s.len(), 1int,
{
    if s.len() == 0 || s[0] != 0x22 {
        return ;
    }
    lemma_parse_string_sound(s.skip(1));
    match parse_string_body(s.skip(1)) {
        Some(pk) => {
            let key = pk.0;
            let kn = pk.1;
            let p = 1 + kn;
            let member = seq![0x22] + text_of_string(key) + seq![0x22, 0x3a];
            lemma_take_split(s, 1, kn);
            assert(s.take(1) =~= seq![0x22]);
            if 0 <= p < s.len() && s[p] == 0x3a {
                lemma_take_split(s, p, 1);
                assert(s.skip(p).take(1) =~= seq![0x3a]);
                assert(s.take(p + 1) =~= member) by {
                    assert(s.take(p) == seq![0x22] + (text_of_string(key) + seq![0x22]));
                }
                lemma_parse_value_sound(s.skip(p + 1));
                match parse_value(s.skip(p + 1)) {
                    Some(pv) => {
                        let v = pv.0;
                        let n = pv.1;
                        let q = p + 1 + n;
                        lemma_take_split(s, p + 1, n);
                        assert(s.take(q) == member + text_of(v));
                        if 0 <= q < s.len() {
                            if s[q] == 0x2c {
                                lemma_parse_members_sound(s.skip(q + 1));
                                match parse_members(s.skip(q + 1)) {
                                    Some(pm) => {
                                        let ms = pm.0;
                                        let m = pm.1;
                                        let ps = seq![(key, v)] + ms;
                                        assert(ps[0] == (key, v));
                                        assert(ps.drop_first() =~= ms);
                                        assert(wf_pairs(ps));
                                        assert(ps.len() >= 2);
                                        assert(text_of_members(ps) == (member + text_of(v))
                                            + seq![0x2c] + text_of_members(ms)) by {
                                            assert(seq![0x22] + text_of_string(key) + seq![
                                                0x22,
                                                0x3a,
                                            ] + text_of(v) =~= member + text_of(v));
                                        }
                                        lemma_take_split(s, q + 1, m);
                                        lemma_take_split(s, q, 1);
                                        assert(s.skip(q).take(1) =~= seq![0x2c]);
                                        assert(s.take(q + 1) == (member + text_of(v)) + seq![
                                            0x2c,
                                        ]);
                                        assert(((member + text_of(v)) + seq![0x2c]
                                            + text_of_members(ms)) + seq![0x7d] =~= ((member
                                            + text_of(v)) + seq![0x2c]) + (text_of_members(ms)
                                            + seq![0x7d]));
                                        assert(s.take(q + 1 + m) == text_of_members(ps) + seq![
                                            0x7d,
                                        ]);
                                    },
                                    None => {},
                                }
                            } else if s[q] == 0x7d {
                                let ps = seq![(key, v)];
                                assert(ps[0] == (key, v));
                                assert(ps.drop_first() =~= Seq::<(Seq<u8>, JsonVal)>::empty());
                                assert(wf_pairs(Seq::<(Seq<u8>, JsonVal)>::empty()));
                                assert(wf_pairs(ps));
                                assert(text_of_members(ps) == member + text_of(v)) by {
                                    assert(seq![0x22] + text_of_string(key) + seq![0x22, 0x3a]
                                        + text_of(v) =~= member + text_of(v));
                                }
                                lemma_take_split(s, q, 1);
                                assert(s.skip(q).take(1) =~= seq![0x7d]);
                                assert(s.take(q + 1) == text_of_members(ps) + seq![0x7d]);
                            }
                        }
                    },
                    None => {},
                }
            }
        },
        None => {},
    }
}

/// A whole document the parser accepts is exactly the renderer's text for
/// the document it yields: the wire format is canonical, and parsing is
/// the renderer's inverse in both directions.
pub proof fn lemma_parse_canonical(s: Seq<u8>)
    ensures
        match json_doc(s) {
            Some(v) => wf_val(v) && s == text_of(v),
            None => true,
        },
{
    lemma_parse_value_sound(s);
    match parse_value(s) {
        Some(p) => {
            if p.1 == s.len() {
                assert(s.take(p.1) =~= s);
            }
        },
        None => {},
    }
}

} // verus!
