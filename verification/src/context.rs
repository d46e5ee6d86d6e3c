//! The per-request execution context: variables, fragments, directive
//! policy and variable substitution.

use vstd::prelude::*;
use vstd::string::StringExecFns;
use vstd::std_specs::iter::IteratorSpec;
use crate::ast::{
    directives_view, variable_definitions_view, Directive, DirectiveV, Field, FragmentDefinition,
    FragmentDefinitionV, Pos, VariableDefinition, VariableDefinitionV,
};
use crate::error::{error_at, Error, ErrorV, QueryError, QueryErrorV};
use crate::value::{clone_value, json_to_gql, obj_get, obj_update, value_view, values_view, args_view, Json, Value, ValueV};

verus! {

/// Variables of a request, always materialized as a GraphQL object.
pub struct Variables(pub Value);

/// The bindings a variables object holds; an ill-formed carrier holds none.
pub open spec fn variables_pairs(v: ValueV) -> Seq<(Seq<char>, ValueV)> {
    match v {
        ValueV::Object(ps) => ps,
        _ => Seq::empty(),
    }
}

impl Variables {
    /// A variables object is well-formed when it is an object value.
    pub open spec fn wf(self) -> bool {
        value_view(self.0) is Object
    }
}

impl Default for Variables {
    /// The empty variables object.
    fn default() -> (r: Self)
        ensures
            value_view(r.0) == ValueV::Object(Seq::<(Seq<char>, ValueV)>::empty()),
            r.wf(),
    {
        let r = Variables(Value::Object(Vec::new()));
        proof {
            assert(value_view(r.0) matches ValueV::Object(ps) && ps =~= Seq::<
                (Seq<char>, ValueV),
            >::empty());
        }
        r
    }
}

/// The least index of a `.` in `s`, if any.
pub open spec fn first_dot(s: Seq<char>) -> Option<int>
    decreases s.len(),
{
    if s.len() == 0 {
        None
    } else if s[0] == '.' {
        Some(0)
    } else {
        match first_dot(s.skip(1)) {
            Some(j) => Some(j + 1),
            None => None,
        }
    }
}

/// Splitting a dotted path into its segments; every `.` separates two
/// segments, so empty segments arise from doubled or trailing dots.
pub open spec fn split_dots(s: Seq<char>) -> Seq<Seq<char>>
    decreases s.len(),
{
    match first_dot(s) {
        None => seq![s],
        Some(i) => if 0 <= i < s.len() {
            seq![s.take(i)] + split_dots(s.skip(i + 1))
        } else {
            seq![s]
        },
    }
}

/// The wire encoding of an uploaded file reference:
/// `file:<name>[:<content-type>]|<local-path>`.
pub open spec fn file_string_spec(
    filename: Seq<char>,
    content_type: Option<Seq<char>>,
    path: Seq<char>,
) -> Seq<char> {
    "file:"@ + filename + (match content_type {
        Some(c) => ":"@ + c,
        None => Seq::empty(),
    }) + "|"@ + path
}

/// Builds the file-reference string, exactly as [`file_string_spec`] states.
pub fn file_string(filename: &str, content_type: Option<&str>, path: &str) -> (r: String)
    ensures
        r@ == file_string_spec(
            filename@,
            match content_type {
                Some(c) => Some(c@),
                None => None,
            },
            path@,
        ),
{
    let mut s = "file:".to_owned();
    s.append(filename);
    match content_type {
        Some(c) => {
            s.append(":");
            s.append(c);
        },
        None => {},
    }
    s.append("|");
    s.append(path);
    proof {
        assert(s@ =~= file_string_spec(
            filename@,
            match content_type {
                Some(c) => Some(c@),
                None => None,
            },
            path@,
        ));
    }
    s
}

/// Whether `c` is an ASCII decimal digit.
pub open spec fn is_digit(c: char) -> bool {
    '0' <= c && c <= '9'
}

/// The numeric value of a digit string, most significant first.
pub open spec fn digits_val(s: Seq<char>) -> int
    decreases s.len(),
{
    if s.len() == 0 {
        0
    } else {
        digits_val(s.drop_last()) * 10 + (s.last() as int - '0' as int)
    }
}

pub open spec fn all_digits(s: Seq<char>) -> bool {
    forall|i: int| 0 <= i < s.len() ==> is_digit(#[trigger] s[i])
}

/// The 32-bit signed integer a string parses to, if any: an optional sign
/// followed by at least one digit, within the `i32` range.
pub open spec fn parse_i32_spec(s: Seq<char>) -> Option<i32> {
    let (neg, ds) = if s.len() > 0 && s[0] == '-' {
        (true, s.skip(1))
    } else if s.len() > 0 && s[0] == '+' {
        (false, s.skip(1))
    } else {
        (false, s)
    };
    if ds.len() > 0 && all_digits(ds) {
        if neg && -digits_val(ds) >= i32::MIN {
            Some((-digits_val(ds)) as i32)
        } else if !neg && digits_val(ds) <= i32::MAX {
            Some(digits_val(ds) as i32)
        } else {
            None
        }
    } else {
        None
    }
}

/// Parses a decimal `i32`, exactly as [`parse_i32_spec`] states.
#[verifier::loop_isolation(false)]
pub fn parse_i32_digits(s: &String) -> (r: Option<i32>)
    ensures
        r == parse_i32_spec(s@),
{
    let bytes_vec: Vec<char> = string_chars(s);
    let n = bytes_vec.len();
    let mut start: usize = 0;
    let mut neg = false;
    if n > 0 {
        let c0 = bytes_vec[0];
        if c0 == '-' {
            neg = true;
            start = 1;
        } else if c0 == '+' {
            start = 1;
        }
    }
    let ghost ds = s@.skip(start as int);
    proof {
        assert(bytes_vec@ == s@);
        assert(s@.skip(0) =~= s@);
        if s@.len() > 0 && s@[0] == '-' {
            assert(neg && start == 1);
        } else if s@.len() > 0 && s@[0] == '+' {
            assert(!neg && start == 1);
        } else {
            assert(!neg && start == 0);
        }
    }
    if start >= n {
        proof {
            assert(ds.len() == 0);
        }
        return None;
    }
    let mut acc: u64 = 0;
    let mut over = false;
    let mut i: usize = start;
    while i < n
        invariant
            start <= i <= n,
            !over ==> acc == digits_val(s@.subrange(start as int, i as int)),
            !over ==> acc <= 0x8000_0000u64,
            over ==> digits_val(s@.subrange(start as int, i as int)) > 0x8000_0000,
            all_digits(s@.subrange(start as int, i as int)),
            !over ==> digits_val(s@.subrange(start as int, i as int)) >= 0,
        decreases n - i,
    {
        let c = bytes_vec[i];
        if !(c >= '0' && c <= '9') {
            proof {
                assert(ds[i - start] == s@[i as int]);
                assert(!all_digits(ds));
            }
            return None;
        }
        let d = (c as u32 - '0' as u32) as u64;
        proof {
            assert(s@.subrange(start as int, i + 1 as int).drop_last() =~= s@.subrange(
                start as int,
                i as int,
            ));
            assert(digits_val(s@.subrange(start as int, i + 1 as int)) == digits_val(
                s@.subrange(start as int, i as int),
            ) * 10 + d);
        }
        if over || acc > 0x8000_0000u64 / 10 + 1 {
            proof {
                if !over {
                    assert(acc * 10 + d > 0x8000_0000) by (nonlinear_arith)
                        requires
                            acc > 0x8000_0000u64 / 10 + 1,
                            d >= 0,
                    ;
                }
                if over {
                    assert(digits_val(s@.subrange(start as int, i as int)) * 10 + d
                        > 0x8000_0000) by (nonlinear_arith)
                        requires
                            digits_val(s@.subrange(start as int, i as int)) > 0x8000_0000,
                            d >= 0,
                    ;
                }
            }
            over = true;
        } else {
            proof {
                assert(acc * 10 + d <= (0x8000_0000u64 / 10 + 1) * 10 + 9) by (nonlinear_arith)
                    requires
                        acc <= 0x8000_0000u64 / 10 + 1,
                        d <= 9,
                ;
            }
            let next = acc * 10 + d;
            if next > 0x8000_0000u64 {
                proof {
                    assert(digits_val(s@.subrange(start as int, i + 1 as int)) > 0x8000_0000);
                }
                over = true;
            } else {
                acc = next;
            }
        }
        proof {
            if over {
                lemma_digits_val_grows(s@.subrange(start as int, i + 1 as int));
            }
        }
        i += 1;
    }
    proof {
        assert(s@.subrange(start as int, n as int) =~= ds);
    }
    if over {
        proof {
            assert(digits_val(ds) > 0x8000_0000);
            assert(parse_i32_spec(s@) is None);
        }
        return None;
    }
    proof {
        assert(acc == digits_val(ds));
    }
    if neg {
        let v = if acc == 0x8000_0000u64 {
            i32::MIN
        } else {
            -(acc as i32)
        };
        proof {
            assert(parse_i32_spec(s@) == Some(v));
        }
        Some(v)
    } else {
        if acc > 0x7fff_ffffu64 {
            proof {
                assert(digits_val(ds) > i32::MAX);
                assert(parse_i32_spec(s@) is None);
            }
            return None;
        }
        proof {
            assert(parse_i32_spec(s@) == Some(acc as i32));
        }
        Some(acc as i32)
    }
}

/// Appending digits never shrinks a digit string's value.
proof fn lemma_digits_val_grows(s: Seq<char>)
    requires
        s.len() > 0,
        all_digits(s),
    ensures
        digits_val(s) >= digits_val(s.drop_last()),
        digits_val(s) >= 0,
    decreases s.len(),
{
    if s.len() == 1 {
        assert(s.drop_last().len() == 0);
        assert(digits_val(s.drop_last()) == 0);
    } else {
        assert(all_digits(s.drop_last())) by {
            assert(forall|i: int|
                0 <= i < s.drop_last().len() ==> #[trigger] s.drop_last()[i] == s[i]);
        }
        lemma_digits_val_grows(s.drop_last());
        assert(digits_val(s.drop_last()) * 10 >= digits_val(s.drop_last())) by (nonlinear_arith)
            requires
                digits_val(s.drop_last()) >= 0,
        ;
    }
}

/// The characters of a string, in order.
pub fn string_chars(s: &String) -> (r: Vec<char>)
    ensures
        r@ == s@,
{
    let mut out: Vec<char> = Vec::new();
    for c in it: s.as_str().chars()
        invariant
            it.seq() == s@,
            out@ == it.seq().take(it.index() as int),
    {
        out.push(c);
        proof {
            assert(out@ =~= it.seq().take(it.index() + 1 as int));
        }
    }
    proof {
        assert(out@ =~= s@);
    }
    out
}

/// Relies on `String::push`: appends one character to the string.
pub assume_specification[ String::push ](s: &mut String, ch: char)
    ensures
        final(s)@ == old(s)@.push(ch),
;

/// The string made of the characters `cs[a..b]`.
#[verifier::loop_isolation(false)]
pub fn chars_to_string(cs: &Vec<char>, a: usize, b: usize) -> (r: String)
    requires
        a <= b <= cs@.len(),
    ensures
        r@ == cs@.subrange(a as int, b as int),
{
    let mut out = String::new();
    for i in a..b
        invariant
            out@ == cs@.subrange(a as int, i as int),
        decreases b - i,
    {
        out.push(cs[i]);
        proof {
            assert(out@ =~= cs@.subrange(a as int, i + 1 as int));
        }
    }
    out
}

/// A scan that finds a dot at `k` with none before it has found the first.
proof fn lemma_first_dot_at(t: Seq<char>, k: int)
    requires
        0 <= k < t.len(),
        t[k] == '.',
        forall|j: int| 0 <= j < k ==> t[j] != '.',
    ensures
        first_dot(t) == Some(k),
    decreases k,
{
    if k > 0 {
        lemma_first_dot_at(t.skip(1), k - 1);
    }
}

/// A scan that finds no dot has found that there is none.
proof fn lemma_no_dot(t: Seq<char>)
    requires
        forall|j: int| 0 <= j < t.len() ==> t[j] != '.',
    ensures
        first_dot(t) is None,
    decreases t.len(),
{
    if t.len() > 0 {
        lemma_no_dot(t.skip(1));
    }
}

/// The views of a list of strings.
pub open spec fn strings_view(s: Seq<String>) -> Seq<Seq<char>> {
    s.map_values(|x: String| x@)
}

/// Splits `s` on dots, exactly as [`split_dots`] states.
pub fn split_path(s: &str) -> (r: Vec<String>)
    ensures
        strings_view(r@) == split_dots(s@),
{
    let cs = string_chars(&s.to_owned());
    let r = split_from(&cs, 0);
    proof {
        assert(cs@.skip(0) =~= s@);
    }
    r
}

/// Splits `cs[from..]` on dots.
#[verifier::loop_isolation(false)]
fn split_from(cs: &Vec<char>, from: usize) -> (r: Vec<String>)
    requires
        from <= cs@.len(),
    ensures
        strings_view(r@) == split_dots(cs@.skip(from as int)),
    decreases cs@.len() - from,
{
    let ghost t = cs@.skip(from as int);
    let n = cs.len();
    let mut i = from;
    while i < n
        invariant
            from <= i <= n,
            forall|j: int| from <= j < i ==> cs@[j] != '.',
        decreases n - i,
    {
        if cs[i] == '.' {
            proof {
                assert(forall|j: int| 0 <= j < i - from ==> t[j] == cs@[j + from] && t[j] != '.');
                lemma_first_dot_at(t, i - from);
            }
            let head = chars_to_string(cs, from, i);
            let mut rest = split_from(cs, i + 1);
            rest.insert(0, head);
            proof {
                assert(t.take(i - from) =~= cs@.subrange(from as int, i as int));
                assert(t.skip(i - from + 1) =~= cs@.skip(i + 1 as int));
                assert(strings_view(rest@) =~= split_dots(t));
            }
            return rest;
        }
        i += 1;
    }
    proof {
        assert(forall|j: int| 0 <= j < t.len() ==> t[j] == cs@[j + from] && t[j] != '.');
        lemma_no_dot(t);
    }
    let whole = chars_to_string(cs, from, n);
    let mut r: Vec<String> = Vec::new();
    r.push(whole);
    proof {
        assert(t =~= cs@.subrange(from as int, n as int));
        assert(strings_view(r@) =~= split_dots(t));
    }
    r
}

/// Whether a string equals a literal, stated over their views.
pub fn str_eq_lit(a: &String, b: &str) -> (r: bool)
    ensures
        r == (a@ == b@),
{
    let bo = b.to_owned();
    a.eq(&bo)
}

/// In an object whose first binding of `name` is at `j`, lookup finds that
/// binding and update rewrites exactly it.
pub proof fn lemma_obj_first_binding(ps: Seq<(Seq<char>, ValueV)>, name: Seq<char>, v: ValueV, j: int)
    requires
        0 <= j < ps.len(),
        ps[j].0 == name,
        forall|k: int| 0 <= k < j ==> ps[k].0 != name,
    ensures
        obj_get(ps, name) == Some(ps[j].1),
        obj_update(ps, name, v) =~= ps.update(j, (name, v)),
    decreases j,
{
    if j == 0 {
        assert(obj_update(ps, name, v) =~= ps.update(0, (name, v)));
    } else {
        lemma_obj_first_binding(ps.skip(1), name, v, j - 1);
        assert(ps.skip(1).update(j - 1, (name, v)) =~= ps.update(j, (name, v)).skip(1));
        assert(obj_update(ps, name, v) =~= ps.update(j, (name, v)));
    }
}

/// A scan of an object that saw no binding of `name` finds none.
pub proof fn lemma_obj_get_none(ps: Seq<(Seq<char>, ValueV)>, name: Seq<char>)
    requires
        forall|k: int| 0 <= k < ps.len() ==> ps[k].0 != name,
    ensures
        obj_get(ps, name) is None,
    decreases ps.len(),
{
    if ps.len() > 0 {
        lemma_obj_get_none(ps.skip(1), name);
    }
}

/// The in-place walk of the upload substitution below the leading
/// `variables` segment: a numeric segment descends into a list, a name
/// segment into an object; the addressed scalar is replaced by `repl`; a
/// missing index or key ends the walk; a segment that does not fit the
/// current node is consumed without effect.
pub open spec fn upload_descend(v: ValueV, segs: Seq<Seq<char>>, repl: Seq<char>) -> ValueV
    decreases segs.len(),
{
    if segs.len() == 0 {
        v
    } else {
        let sgm = segs[0];
        let has_next = segs.len() > 1;
        match parse_i32_spec(sgm) {
            Some(ix) => match v {
                ValueV::List(xs) => if 0 <= ix && (ix as int) < xs.len() {
                    if !has_next {
                        ValueV::List(xs.update(ix as int, ValueV::Str(repl)))
                    } else {
                        ValueV::List(
                            xs.update(
                                ix as int,
                                upload_descend(xs[ix as int], segs.skip(1), repl),
                            ),
                        )
                    }
                } else {
                    v
                },
                _ => upload_descend(v, segs.skip(1), repl),
            },
            None => match v {
                ValueV::Object(ps) => match obj_get(ps, sgm) {
                    Some(inner) => if !has_next {
                        ValueV::Object(obj_update(ps, sgm, ValueV::Str(repl)))
                    } else {
                        ValueV::Object(
                            obj_update(ps, sgm, upload_descend(inner, segs.skip(1), repl)),
                        )
                    },
                    None => v,
                },
                _ => upload_descend(v, segs.skip(1), repl),
            },
        }
    }
}

/// What `set_upload` does to the variables value: nothing unless the path
/// starts with the literal `variables`, else the walk of
/// [`upload_descend`].
pub open spec fn set_upload_spec(v: ValueV, segs: Seq<Seq<char>>, repl: Seq<char>) -> ValueV {
    if segs.len() == 0 {
        v
    } else if segs[0] != "variables"@ {
        v
    } else {
        upload_descend(v, segs.skip(1), repl)
    }
}

/// Applies the upload walk to an owned value, exactly as
/// [`upload_descend`] states.
#[verifier::loop_isolation(false)]
fn apply_upload(v: Value, segs: &Vec<String>, idx: usize, repl: &String) -> (r: Value)
    requires
        idx <= segs@.len(),
    ensures
        value_view(r) == upload_descend(value_view(v), strings_view(segs@).skip(idx as int), repl@),
    decreases segs@.len() - idx,
{
    let ghost tsegs = strings_view(segs@).skip(idx as int);
    let ghost vv = value_view(v);
    if idx >= segs.len() {
        proof {
            assert(tsegs.len() == 0);
        }
        return v;
    }
    let sgm = &segs[idx];
    let has_next = idx + 1 < segs.len();
    proof {
        assert(tsegs[0] == sgm@);
        assert((tsegs.len() > 1) == has_next);
        assert(tsegs.skip(1) =~= strings_view(segs@).skip(idx + 1 as int));
    }
    match parse_i32_digits(sgm) {
        Some(ix) => {
            match v {
                Value::List(mut xs) => {
                    let ghost xsv0 = xs@;
                    if ix >= 0 && (ix as usize) < xs.len() {
                        let iu = ix as usize;
                        let elem = xs.remove(iu);
                        let newe = if !has_next {
                            Value::Str(repl.clone())
                        } else {
                            apply_upload(elem, segs, idx + 1, repl)
                        };
                        let ghost newev = value_view(newe);
                        xs.insert(iu, newe);
                        proof {
                            let w = Seq::new(
                                xsv0.len(),
                                |i: int|
                                    if 0 <= i < xsv0.len() {
                                        value_view(xsv0[i])
                                    } else {
                                        ValueV::Null
                                    },
                            );
                            assert(vv is List && vv->List_0 =~= w);
                            let x = if !has_next {
                                ValueV::Str(repl@)
                            } else {
                                upload_descend(w[iu as int], tsegs.skip(1), repl@)
                            };
                            assert(newev == x);
                            assert(xs@ =~= xsv0.remove(iu as int).insert(iu as int, xs@[iu as int]));
                            assert(xs@ =~= xsv0.update(iu as int, xs@[iu as int]));
                            assert(value_view(xs@[iu as int]) == newev);
                            assert(value_view(Value::List(xs)) is List);
                            let m = value_view(Value::List(xs))->List_0;
                            assert(m =~= w.update(iu as int, x));
                            assert(upload_descend(vv, tsegs, repl@) == ValueV::List(
                                w.update(iu as int, x),
                            ));
                        }
                        Value::List(xs)
                    } else {
                        Value::List(xs)
                    }
                },
                other => apply_upload(other, segs, idx + 1, repl),
            }
        },
        None => {
            match v {
                Value::Object(mut ps) => {
                    let ghost psv0 = ps@;
                    let n = ps.len();
                    let mut j: usize = 0;
                    let mut found = false;
                    while j < n
                        invariant
                            0 <= j <= n,
                            !found,
                            n == ps@.len(),
                            forall|k: int| 0 <= k < j ==> ps@[k].0@ != sgm@,
                        decreases n - j,
                    {
                        if str_eq_lit(&ps[j].0, sgm.as_str()) {
                            found = true;
                            break ;
                        }
                        j += 1;
                    }
                    let ghost opsv = value_view(Value::Object(ps));
                    if found {
                        proof {
                            lemma_obj_first_binding(
                                opsv->Object_0,
                                sgm@,
                                ValueV::Null,
                                j as int,
                            );
                        }
                        let pair = ps.remove(j);
                        let key = pair.0;
                        let elem = pair.1;
                        let newe = if !has_next {
                            Value::Str(repl.clone())
                        } else {
                            apply_upload(elem, segs, idx + 1, repl)
                        };
                        proof {
                            lemma_obj_first_binding(
                                opsv->Object_0,
                                sgm@,
                                value_view(newe),
                                j as int,
                            );
                        }
                        ps.insert(j, (key, newe));
                        proof {
                            assert(ps@ =~= psv0.update(j as int, ps@[j as int]));
                            assert(value_view(Value::Object(ps)) matches ValueV::Object(m)
                                && upload_descend(opsv, tsegs, repl@) matches ValueV::Object(sm)
                                && m =~= sm);
                        }
                        Value::Object(ps)
                    } else {
                        proof {
                            assert(forall|k: int|
                                0 <= k < psv0.len() ==> (opsv->Object_0)[k].0 == psv0[k].0@);
                            lemma_obj_get_none(opsv->Object_0, sgm@);
                        }
                        Value::Object(ps)
                    }
                },
                other => apply_upload(other, segs, idx + 1, repl),
            }
        },
    }
}

impl Variables {
    /// The value bound to `name`, if the variables object binds it.
    #[verifier::loop_isolation(false)]
    pub fn get(&self, name: &String) -> (r: Option<&Value>)
        ensures
            match r {
                Some(v) => obj_get(variables_pairs(value_view(self.0)), name@) == Some(
                    value_view(*v),
                ),
                None => obj_get(variables_pairs(value_view(self.0)), name@) is None,
            },
    {
        match &self.0 {
            Value::Object(ps) => {
                let ghost psv = variables_pairs(value_view(self.0));
                let n = ps.len();
                let mut j: usize = 0;
                while j < n
                    invariant
                        0 <= j <= n,
                        n == ps@.len(),
                        psv.len() == n,
                        forall|k: int| 0 <= k < n ==> psv[k] == (ps@[k].0@, value_view(ps@[k].1)),
                        forall|k: int| 0 <= k < j ==> psv[k].0 != name@,
                    decreases n - j,
                {
                    if str_eq_lit(&ps[j].0, name.as_str()) {
                        proof {
                            lemma_obj_first_binding(psv, name@, ValueV::Null, j as int);
                        }
                        return Some(&ps[j].1);
                    }
                    j += 1;
                }
                proof {
                    lemma_obj_get_none(psv, name@);
                }
                None
            },
            _ => {
                proof {
                    assert(variables_pairs(value_view(self.0)) =~= Seq::<
                        (Seq<char>, ValueV),
                    >::empty());
                    lemma_obj_get_none(variables_pairs(value_view(self.0)), name@);
                }
                None
            },
        }
    }

    /// Parses variables from a JSON document: a JSON object becomes the
    /// variables object; anything else yields the empty one.  Never fails.
    pub fn parse_from_json(value: &Json) -> (r: Result<Variables, Error>)
        ensures
            r matches Ok(vars) && vars.wf() && value_view(vars.0) == (
            if json_to_gql(value@) is Object {
                json_to_gql(value@)
            } else {
                ValueV::Object(Seq::<(Seq<char>, ValueV)>::empty())
            }),
    {
        let gql = crate::value::json_value_to_gql_value(value);
        match gql {
            Value::Object(ps) => Ok(Variables(Value::Object(ps))),
            _ => Ok(Variables::default()),
        }
    }

    /// Replaces the scalar addressed by the dotted `var_path` with the
    /// file-reference string, exactly as [`set_upload_spec`] states.
    pub fn set_upload(
        &mut self,
        var_path: &str,
        filename: &str,
        content_type: Option<&str>,
        path: &str,
    )
        ensures
            value_view(final(self).0) == set_upload_spec(
                value_view(old(self).0),
                split_dots(var_path@),
                file_string_spec(
                    filename@,
                    match content_type {
                        Some(c) => Some(c@),
                        None => None,
                    },
                    path@,
                ),
            ),
    {
        let segs = split_path(var_path);
        if segs.len() == 0 {
            return ;
        }
        if !str_eq_lit(&segs[0], "variables") {
            return ;
        }
        let repl = file_string(filename, content_type, path);
        let mut owned = Value::Null;
        core::mem::swap(&mut self.0, &mut owned);
        let ghost segsv = strings_view(segs@);
        proof {
            assert(segsv.skip(1) =~= strings_view(segs@).skip(1));
        }
        let updated = apply_upload_from_one(owned, &segs, &repl);
        self.0 = updated;
    }
}

/// The upload walk started below the leading `variables` segment.
fn apply_upload_from_one(v: Value, segs: &Vec<String>, repl: &String) -> (r: Value)
    requires
        segs@.len() >= 1,
    ensures
        value_view(r) == upload_descend(value_view(v), strings_view(segs@).skip(1), repl@),
{
    apply_upload(v, segs, 1, repl)
}

/// The per-request bundle shared by every nested context: resolved
/// variables, the operation's variable declarations, and the document's
/// fragments by name.
pub struct Environment {
    pub variables: Variables,
    pub variable_definitions: Vec<VariableDefinition>,
    pub fragments: Vec<(String, FragmentDefinition)>,
}

/// Mathematical model of an [`Environment`].
pub struct EnvironmentV {
    pub variables: ValueV,
    pub variable_definitions: Seq<VariableDefinitionV>,
    pub fragments: Seq<(Seq<char>, FragmentDefinitionV)>,
}

pub open spec fn environment_view(e: Environment) -> EnvironmentV {
    EnvironmentV {
        variables: value_view(e.variables.0),
        variable_definitions: variable_definitions_view(e.variable_definitions@),
        fragments: e.fragments@.map_values(
            |p: (String, FragmentDefinition)| (p.0@, crate::ast::fragment_definition_view(p.1)),
        ),
    }
}

impl View for Environment {
    type V = EnvironmentV;

    open spec fn view(&self) -> EnvironmentV {
        environment_view(*self)
    }
}

/// The first declaration of a variable named `name`, if any.
pub open spec fn find_var_def(
    defs: Seq<VariableDefinitionV>,
    name: Seq<char>,
) -> Option<VariableDefinitionV>
    decreases defs.len(),
{
    if defs.len() == 0 {
        None
    } else if defs[0].name == name {
        Some(defs[0])
    } else {
        find_var_def(defs.skip(1), name)
    }
}

/// The first fragment definition bound to `name`, if any.
pub open spec fn find_fragment(
    frags: Seq<(Seq<char>, FragmentDefinitionV)>,
    name: Seq<char>,
) -> Option<FragmentDefinitionV>
    decreases frags.len(),
{
    if frags.len() == 0 {
        None
    } else if frags[0].0 == name {
        Some(frags[0].1)
    } else {
        find_fragment(frags.skip(1), name)
    }
}

/// What a variable resolves to: its supplied value, else the declared
/// default, else a `VarNotDefined` error; a variable the operation does not
/// declare is an error even if a value was supplied.
pub open spec fn var_value_spec(env: EnvironmentV, name: Seq<char>, pos: Pos) -> Result<
    ValueV,
    ErrorV,
> {
    match find_var_def(env.variable_definitions, name) {
        Some(def) => match obj_get(variables_pairs(env.variables), def.name) {
            Some(v) => Ok(v),
            None => match def.default_value {
                Some(d) => Ok(d),
                None => Err(error_at(pos, QueryErrorV::VarNotDefined { var_name: name })),
            },
        },
        None => Err(error_at(pos, QueryErrorV::VarNotDefined { var_name: name })),
    }
}

/// View of a value-or-error result.
pub open spec fn res_value_view(r: Result<Value, Error>) -> Result<ValueV, ErrorV> {
    match r {
        Ok(v) => Ok(value_view(v)),
        Err(e) => Err(crate::error::error_view(e)),
    }
}

/// Resolves a variable, exactly as [`var_value_spec`] states.
#[verifier::loop_isolation(false)]
pub fn var_value(env: &Environment, name: &String, pos: Pos) -> (r: Result<Value, Error>)
    ensures
        res_value_view(r) == var_value_spec(env@, name@, pos),
{
    let defs = &env.variable_definitions;
    let ghost defsv = env@.variable_definitions;
    let n = defs.len();
    let mut j: usize = 0;
    proof {
        assert(defsv.skip(0) =~= defsv);
    }
    while j < n
        invariant
            0 <= j <= n,
            n == defs@.len(),
            defsv.len() == n,
            forall|k: int| 0 <= k < n ==> defsv[k] == crate::ast::variable_definition_view(
                defs@[k],
            ),
            find_var_def(defsv, name@) == find_var_def(defsv.skip(j as int), name@),
        decreases n - j,
    {
        proof {
            assert(defsv.skip(j as int).skip(1) =~= defsv.skip(j + 1 as int));
        }
        if str_eq_lit(&defs[j].name, name.as_str()) {
            match env.variables.get(&defs[j].name) {
                Some(v) => {
                    return Ok(clone_value(v));
                },
                None => {
                    match &defs[j].default_value {
                        Some(d) => {
                            return Ok(clone_value(d));
                        },
                        None => {
                            return Err(
                                QueryError::VarNotDefined { var_name: name.clone() }.into_error(
                                    pos,
                                ),
                            );
                        },
                    }
                },
            }
        }
        j += 1;
    }
    proof {
        assert(defsv.skip(n as int) =~= Seq::<VariableDefinitionV>::empty());
    }
    Err(QueryError::VarNotDefined { var_name: name.clone() }.into_error(pos))
}

/// Elementwise variable substitution in a list: a `Variable` element is
/// replaced by what it resolves to; the first failing resolution aborts.
pub open spec fn subst_list(env: EnvironmentV, xs: Seq<ValueV>, pos: Pos) -> Result<
    Seq<ValueV>,
    ErrorV,
>
    decreases xs.len(),
{
    if xs.len() == 0 {
        Ok(Seq::empty())
    } else {
        let hd = if xs[0] is Variable {
            var_value_spec(env, xs[0]->Variable_0, pos)
        } else {
            Ok(xs[0])
        };
        match hd {
            Err(e) => Err(e),
            Ok(h) => match subst_list(env, xs.skip(1), pos) {
                Err(e) => Err(e),
                Ok(t) => Ok(seq![h] + t),
            },
        }
    }
}

/// Valuewise variable substitution in an object, keys untouched.
pub open spec fn subst_obj(
    env: EnvironmentV,
    ps: Seq<(Seq<char>, ValueV)>,
    pos: Pos,
) -> Result<Seq<(Seq<char>, ValueV)>, ErrorV>
    decreases ps.len(),
{
    if ps.len() == 0 {
        Ok(Seq::empty())
    } else {
        let hd = if ps[0].1 is Variable {
            var_value_spec(env, ps[0].1->Variable_0, pos)
        } else {
            Ok(ps[0].1)
        };
        match hd {
            Err(e) => Err(e),
            Ok(h) => match subst_obj(env, ps.skip(1), pos) {
                Err(e) => Err(e),
                Ok(t) => Ok(seq![(ps[0].0, h)] + t),
            },
        }
    }
}

/// What input-value resolution returns: a top-level `Variable` is resolved;
/// variables one level inside a list or object are resolved; anything else,
/// nested occurrences included, is returned unchanged.
pub open spec fn resolve_input_value_spec(env: EnvironmentV, v: ValueV, pos: Pos) -> Result<
    ValueV,
    ErrorV,
> {
    match v {
        ValueV::Variable(n) => var_value_spec(env, n, pos),
        ValueV::List(xs) => match subst_list(env, xs, pos) {
            Ok(ys) => Ok(ValueV::List(ys)),
            Err(e) => Err(e),
        },
        ValueV::Object(ps) => match subst_obj(env, ps, pos) {
            Ok(qs) => Ok(ValueV::Object(qs)),
            Err(e) => Err(e),
        },
        _ => Ok(v),
    }
}

/// Resolves variables in an input value, exactly as
/// [`resolve_input_value_spec`] states.
#[verifier::loop_isolation(false)]
pub fn resolve_input_value(env: &Environment, value: Value, pos: Pos) -> (r: Result<Value, Error>)
    ensures
        res_value_view(r) == resolve_input_value_spec(env@, value_view(value), pos),
{
    let ghost vv = value_view(value);
    match value {
        Value::Variable(n) => var_value(env, &n, pos),
        Value::List(xs) => {
            let ghost xsv = values_view(xs@);
            proof {
                assert(vv matches ValueV::List(l) && l =~= xsv);
            }
            let mut out: Vec<Value> = Vec::new();
            let n = xs.len();
            let mut i: usize = 0;
            proof {
                assert(xsv.skip(0) =~= xsv);
                assert(values_view(out@) + subst_list(env@, xsv, pos)->Ok_0 =~= subst_list(
                    env@,
                    xsv,
                    pos,
                )->Ok_0);
            }
            while i < n
                invariant
                    0 <= i <= n,
                    n == xs@.len(),
                    xsv.len() == n,
                    forall|k: int| 0 <= k < n ==> xsv[k] == value_view(xs@[k]),
                    out@.len() == i,
                    subst_list(env@, xsv, pos) == (match subst_list(
                        env@,
                        xsv.skip(i as int),
                        pos,
                    ) {
                        Ok(t) => Ok::<Seq<ValueV>, ErrorV>(values_view(out@) + t),
                        Err(e) => Err::<Seq<ValueV>, ErrorV>(e),
                    }),
                decreases n - i,
            {
                proof {
                    assert(xsv.skip(i as int).skip(1) =~= xsv.skip(i + 1 as int));
                }
                let elem = &xs[i];
                let new_elem = match elem {
                    Value::Variable(vn) => {
                        match var_value(env, vn, pos) {
                            Ok(v) => v,
                            Err(e) => {
                                proof {
                                    assert(subst_list(env@, xsv.skip(i as int), pos)
                                        == Err::<Seq<ValueV>, ErrorV>(crate::error::error_view(e)));
                                }
                                return Err(e);
                            },
                        }
                    },
                    other => clone_value(other),
                };
                let ghost h = value_view(new_elem);
                let ghost outv0 = out@;
                out.push(new_elem);
                proof {
                    assert(out@.drop_last() =~= outv0);
                    assert(values_view(out@) =~= values_view(outv0).push(h));
                    assert(subst_list(env@, xsv.skip(i as int), pos) == (match subst_list(
                        env@,
                        xsv.skip(i + 1 as int),
                        pos,
                    ) {
                        Ok(t) => Ok::<Seq<ValueV>, ErrorV>(seq![h] + t),
                        Err(e) => Err::<Seq<ValueV>, ErrorV>(e),
                    }));
                    if subst_list(env@, xsv.skip(i + 1 as int), pos) is Ok {
                        let t = subst_list(env@, xsv.skip(i + 1 as int), pos)->Ok_0;
                        assert(values_view(outv0) + (seq![h] + t) =~= values_view(out@) + t);
                    }
                }
                i += 1;
            }
            proof {
                assert(xsv.skip(n as int) =~= Seq::<ValueV>::empty());
                assert(subst_list(env@, xsv, pos) == Ok::<Seq<ValueV>, ErrorV>(
                    values_view(out@) + Seq::empty(),
                ));
                assert(values_view(out@) + Seq::<ValueV>::empty() =~= values_view(out@));
                assert(value_view(Value::List(out)) matches ValueV::List(m) && m =~= values_view(
                    out@,
                ));
            }
            Ok(Value::List(out))
        },
        Value::Object(ps) => {
            let ghost psv = args_view(ps@);
            proof {
                assert(vv matches ValueV::Object(l) && l =~= psv);
            }
            let mut out: Vec<(String, Value)> = Vec::new();
            let n = ps.len();
            let mut i: usize = 0;
            proof {
                assert(psv.skip(0) =~= psv);
                assert(args_view(out@) + subst_obj(env@, psv, pos)->Ok_0 =~= subst_obj(
                    env@,
                    psv,
                    pos,
                )->Ok_0);
            }
            while i < n
                invariant
                    0 <= i <= n,
                    n == ps@.len(),
                    psv.len() == n,
                    forall|k: int| 0 <= k < n ==> psv[k] == (ps@[k].0@, value_view(ps@[k].1)),
                    out@.len() == i,
                    subst_obj(env@, psv, pos) == (match subst_obj(env@, psv.skip(i as int), pos) {
                        Ok(t) => Ok::<Seq<(Seq<char>, ValueV)>, ErrorV>(args_view(out@) + t),
                        Err(e) => Err::<Seq<(Seq<char>, ValueV)>, ErrorV>(e),
                    }),
                decreases n - i,
            {
                proof {
                    assert(psv.skip(i as int).skip(1) =~= psv.skip(i + 1 as int));
                }
                let key = ps[i].0.clone();
                let elem = &ps[i].1;
                let new_elem = match elem {
                    Value::Variable(vn) => {
                        match var_value(env, vn, pos) {
                            Ok(v) => v,
                            Err(e) => {
                                proof {
                                    assert(subst_obj(env@, psv.skip(i as int), pos)
                                        == Err::<Seq<(Seq<char>, ValueV)>, ErrorV>(
                                        crate::error::error_view(e),
                                    ));
                                }
                                return Err(e);
                            },
                        }
                    },
                    other => clone_value(other),
                };
                let ghost h = value_view(new_elem);
                let ghost kv = key@;
                let ghost outv0 = out@;
                out.push((key, new_elem));
                proof {
                    assert(out@.drop_last() =~= outv0);
                    assert(args_view(out@) =~= args_view(outv0).push((kv, h)));
                    assert(subst_obj(env@, psv.skip(i as int), pos) == (match subst_obj(
                        env@,
                        psv.skip(i + 1 as int),
                        pos,
                    ) {
                        Ok(t) => Ok::<Seq<(Seq<char>, ValueV)>, ErrorV>(seq![(kv, h)] + t),
                        Err(e) => Err::<Seq<(Seq<char>, ValueV)>, ErrorV>(e),
                    }));
                    if subst_obj(env@, psv.skip(i + 1 as int), pos) is Ok {
                        let t = subst_obj(env@, psv.skip(i + 1 as int), pos)->Ok_0;
                        assert(args_view(outv0) + (seq![(kv, h)] + t) =~= args_view(out@) + t);
                    }
                }
                i += 1;
            }
            proof {
                assert(psv.skip(n as int) =~= Seq::<(Seq<char>, ValueV)>::empty());
                assert(subst_obj(env@, psv, pos) == Ok::<Seq<(Seq<char>, ValueV)>, ErrorV>(
                    args_view(out@) + Seq::empty(),
                ));
                assert(args_view(out@) + Seq::<(Seq<char>, ValueV)>::empty() =~= args_view(out@));
                assert(value_view(Value::Object(out)) matches ValueV::Object(m) && m =~= args_view(
                    out@,
                ));
            }
            Ok(Value::Object(out))
        },
        other => Ok(other),
    }
}

/// Whether a directive list carries `@defer`.
pub open spec fn is_defer_spec(ds: Seq<DirectiveV>) -> bool {
    exists|i: int| 0 <= i < ds.len() && ds[i].name == "defer"@
}

/// Whether a member carries `@defer`, exactly as [`is_defer_spec`] states.
#[verifier::loop_isolation(false)]
pub fn is_defer(directives: &Vec<Directive>) -> (r: bool)
    ensures
        r == is_defer_spec(directives_view(directives@)),
{
    let ghost dsv = directives_view(directives@);
    let n = directives.len();
    for i in 0..n
        invariant
            n == directives@.len(),
            dsv.len() == n,
            forall|k: int| 0 <= k < n ==> dsv[k] == crate::ast::directive_view(directives@[k]),
            forall|k: int| 0 <= k < i ==> dsv[k].name != "defer"@,
        decreases n - i,
    {
        if str_eq_lit(&directives[i].name, "defer") {
            proof {
                assert(dsv[i as int].name == "defer"@);
            }
            return true;
        }
    }
    false
}

/// What the skip policy decides for one resolved directive argument.
pub open spec fn skip_arg_value(env: EnvironmentV, d: DirectiveV) -> Result<ValueV, ErrorV> {
    match obj_get(d.arguments, "if"@) {
        Some(v) => resolve_input_value_spec(env, v, d.position),
        None => Err(error_at(d.position, QueryErrorV::RequiredDirectiveArgs {
            directive: if d.name == "skip"@ {
                "@skip"@
            } else {
                "@include"@
            },
            arg_name: "if"@,
            arg_type: "Boolean!"@,
        })),
    }
}

/// What the directive policy decides: `skip` and `include` each need a
/// boolean `if` argument; `skip(if: true)` and `include(if: false)` elide
/// the member; `defer` is recognized and decides nothing here; any other
/// directive is an `UnknownDirective` error.
pub open spec fn skip_spec(env: EnvironmentV, ds: Seq<DirectiveV>) -> Result<bool, ErrorV>
    decreases ds.len(),
{
    if ds.len() == 0 {
        Ok(false)
    } else {
        let d = ds[0];
        if d.name == "defer"@ {
            skip_spec(env, ds.skip(1))
        } else if d.name == "skip"@ || d.name == "include"@ {
            match skip_arg_value(env, d) {
                Err(e) => Err(e),
                Ok(rv) => match rv {
                    ValueV::Boolean(b) => {
                        let elide = if d.name == "skip"@ {
                            b
                        } else {
                            !b
                        };
                        if elide {
                            Ok(true)
                        } else {
                            skip_spec(env, ds.skip(1))
                        }
                    },
                    _ => Err(error_at(d.position, QueryErrorV::ExpectedType {
                        expect: "Boolean!"@,
                        actual: rv,
                    })),
                },
            }
        } else {
            Err(error_at(d.position, QueryErrorV::UnknownDirective { name: d.name }))
        }
    }
}

/// View of a boolean-or-error result.
pub open spec fn res_bool_view(r: Result<bool, Error>) -> Result<bool, ErrorV> {
    match r {
        Ok(b) => Ok(b),
        Err(e) => Err(crate::error::error_view(e)),
    }
}

/// Decides whether directives elide a member, exactly as [`skip_spec`]
/// states.
#[verifier::loop_isolation(false)]
pub fn is_skip(env: &Environment, directives: &Vec<Directive>) -> (r: Result<bool, Error>)
    ensures
        res_bool_view(r) == skip_spec(env@, directives_view(directives@)),
{
    let ghost dsv = directives_view(directives@);
    let n = directives.len();
    let mut i: usize = 0;
    proof {
        assert(dsv.skip(0) =~= dsv);
    }
    while i < n
        invariant
            0 <= i <= n,
            n == directives@.len(),
            dsv.len() == n,
            forall|k: int| 0 <= k < n ==> dsv[k] == crate::ast::directive_view(directives@[k]),
            skip_spec(env@, dsv) == skip_spec(env@, dsv.skip(i as int)),
        decreases n - i,
    {
        proof {
            assert(dsv.skip(i as int).skip(1) =~= dsv.skip(i + 1 as int));
        }
        let d = &directives[i];
        let is_defer_d = str_eq_lit(&d.name, "defer");
        let is_skip_d = str_eq_lit(&d.name, "skip");
        let is_include_d = str_eq_lit(&d.name, "include");
        if is_defer_d {
            proof {
                assert("defer"@ != "skip"@ && "defer"@ != "include"@) by {
                    reveal_strlit("defer");
                    reveal_strlit("skip");
                    reveal_strlit("include");
                    assert("defer"@.len() == 5);
                    assert("skip"@.len() == 4);
                    assert("include"@.len() == 7);
                };
            }
        } else if is_skip_d || is_include_d {
            let ghost dv = dsv[i as int];
            let mut arg: Option<&Value> = None;
            let m = d.arguments.len();
            let mut j: usize = 0;
            while j < m
                invariant
                    0 <= j <= m,
                    m == d.arguments@.len(),
                    dv.arguments.len() == m,
                    forall|k: int|
                        0 <= k < m ==> dv.arguments[k] == (
                        d.arguments@[k].0@,
                        value_view(d.arguments@[k].1),
                        ),
                    forall|k: int| 0 <= k < j ==> dv.arguments[k].0 != "if"@,
                    arg is None,
                decreases m - j,
            {
                if str_eq_lit(&d.arguments[j].0, "if") {
                    proof {
                        lemma_obj_first_binding(dv.arguments, "if"@, ValueV::Null, j as int);
                    }
                    arg = Some(&d.arguments[j].1);
                    break ;
                }
                j += 1;
            }
            match arg {
                Some(value) => {
                    let resolved = match resolve_input_value(env, clone_value(value), d.position) {
                        Ok(v) => v,
                        Err(e) => {
                            return Err(e);
                        },
                    };
                    match resolved {
                        Value::Boolean(b) => {
                            let elide = if is_skip_d {
                                b
                            } else {
                                !b
                            };
                            if elide {
                                return Ok(true);
                            }
                        },
                        other => {
                            return Err(
                                QueryError::ExpectedType {
                                    expect: "Boolean!".to_owned(),
                                    actual: other,
                                }.into_error(d.position),
                            );
                        },
                    }
                },
                None => {
                    proof {
                        lemma_obj_get_none(dv.arguments, "if"@);
                    }
                    let dname = if is_skip_d {
                        "@skip"
                    } else {
                        "@include"
                    };
                    return Err(
                        QueryError::RequiredDirectiveArgs {
                            directive: dname.to_owned(),
                            arg_name: "if".to_owned(),
                            arg_type: "Boolean!".to_owned(),
                        }.into_error(d.position),
                    );
                },
            }
        } else {
            return Err(
                QueryError::UnknownDirective { name: d.name.clone() }.into_error(d.position),
            );
        }
        i += 1;
    }
    proof {
        assert(dsv.skip(n as int) =~= Seq::<DirectiveV>::empty());
    }
    Ok(false)
}

/// The client-visible key of a field: its alias if present, else its name.
pub fn result_name(field: &Field) -> (r: &String)
    ensures
        r@ == crate::ast::result_key(crate::ast::field_view(*field)),
{
    match &field.alias {
        Some(a) => a,
        None => &field.name,
    }
}

/// A directive `name(if: v)` with a literal boolean argument.
pub open spec fn bool_if_directive(name: Seq<char>, pos: Pos, v: bool) -> DirectiveV {
    DirectiveV { position: pos, name, arguments: seq![("if"@, ValueV::Boolean(v))] }
}

/// Substitution does not change a list without shallow variables.
proof fn lemma_subst_list_id(env: EnvironmentV, xs: Seq<ValueV>, pos: Pos)
    requires
        forall|i: int| 0 <= i < xs.len() ==> !(#[trigger] xs[i] is Variable),
    ensures
        subst_list(env, xs, pos) == Ok::<Seq<ValueV>, ErrorV>(xs),
    decreases xs.len(),
{
    if xs.len() == 0 {
        assert(xs =~= Seq::<ValueV>::empty());
    } else {
        lemma_subst_list_id(env, xs.skip(1), pos);
        assert(seq![xs[0]] + xs.skip(1) =~= xs);
    }
}

/// Substitution does not change an object without shallow variables.
proof fn lemma_subst_obj_id(env: EnvironmentV, ps: Seq<(Seq<char>, ValueV)>, pos: Pos)
    requires
        forall|i: int| 0 <= i < ps.len() ==> !(#[trigger] ps[i].1 is Variable),
    ensures
        subst_obj(env, ps, pos) == Ok::<Seq<(Seq<char>, ValueV)>, ErrorV>(ps),
    decreases ps.len(),
{
    if ps.len() == 0 {
        assert(ps =~= Seq::<(Seq<char>, ValueV)>::empty());
    } else {
        lemma_subst_obj_id(env, ps.skip(1), pos);
        assert(seq![(ps[0].0, ps[0].1)] + ps.skip(1) =~= ps);
    }
}

/// A value with no `Variable` at the top level or one level inside a list
/// or object.
pub open spec fn no_shallow_vars(v: ValueV) -> bool {
    match v {
        ValueV::Variable(_) => false,
        ValueV::List(xs) => forall|i: int| 0 <= i < xs.len() ==> !(#[trigger] xs[i] is Variable),
        ValueV::Object(ps) => forall|i: int|
            0 <= i < ps.len() ==> !(#[trigger] ps[i].1 is Variable),
        _ => true,
    }
}

/// Variable substitution is idempotent on values with no shallow
/// `Variable` occurrence: one application returns the value unchanged, so
/// any further application does too.
pub proof fn lemma_resolve_input_value_idempotent(env: EnvironmentV, v: ValueV, pos: Pos)
    requires
        no_shallow_vars(v),
    ensures
        resolve_input_value_spec(env, v, pos) == Ok::<ValueV, ErrorV>(v),
{
    match v {
        ValueV::List(xs) => {
            lemma_subst_list_id(env, xs, pos);
        },
        ValueV::Object(ps) => {
            lemma_subst_obj_id(env, ps, pos);
        },
        _ => {},
    }
}

/// `@skip(if: v)` is equivalent to `@include(if: !v)`: ahead of any
/// further directives, the two decide elision identically, for every
/// boolean `v`.
pub proof fn lemma_skip_include_equiv(env: EnvironmentV, pos: Pos, v: bool, rest: Seq<DirectiveV>)
    ensures
        skip_spec(env, seq![bool_if_directive("skip"@, pos, v)] + rest) == skip_spec(
            env,
            seq![bool_if_directive("include"@, pos, !v)] + rest,
        ),
{
    let sd = bool_if_directive("skip"@, pos, v);
    let id = bool_if_directive("include"@, pos, !v);
    let ss = seq![sd] + rest;
    let is = seq![id] + rest;
    assert(ss[0] == sd && is[0] == id);
    assert(ss.skip(1) =~= rest);
    assert(is.skip(1) =~= rest);
    assert(obj_get(sd.arguments, "if"@) == Some(ValueV::Boolean(v)));
    assert(obj_get(id.arguments, "if"@) == Some(ValueV::Boolean(!v)));
    assert("skip"@ != "include"@ && "skip"@ != "defer"@ && "include"@ != "defer"@) by {
        reveal_strlit("skip");
        reveal_strlit("include");
        reveal_strlit("defer");
        assert("skip"@.len() == 4);
        assert("include"@.len() == 7);
        assert("defer"@.len() == 5);
    }
    assert(skip_spec(env, ss) == (if v {
        Ok::<bool, ErrorV>(true)
    } else {
        skip_spec(env, rest)
    }));
    assert(skip_spec(env, is) == (if v {
        Ok::<bool, ErrorV>(true)
    } else {
        skip_spec(env, rest)
    }));
}

} // verus!
