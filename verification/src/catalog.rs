//! Lookups over a contract's interface document.
//!
//! The document is an array of entries; an entry is a table with a
//! `name` string and, for methods and events, an `inputs` array of
//! tables each holding a `type` string. The catalog answers two
//! questions: the ordered parameter types of a named method, and the
//! canonical signature string `name(type1,type2,...)` of a named event.

use vstd::prelude::*;

use crate::error::EthError;
use crate::value::entries_view;
use crate::value::lemma_entries_view;
use crate::value::lemma_values_view;
use crate::value::value_view;
use crate::value::values_view;
use crate::value::Value;
use crate::value::ValueV;

verus! {

/// The characters of the entry key `name`.
pub open spec fn name_chars() -> Seq<char> {
    seq!['n', 'a', 'm', 'e']
}

/// The characters of the entry key `inputs`.
pub open spec fn inputs_chars() -> Seq<char> {
    seq!['i', 'n', 'p', 'u', 't', 's']
}

/// The characters of the entry key `type`.
pub open spec fn type_chars() -> Seq<char> {
    seq!['t', 'y', 'p', 'e']
}

/// The first value under `key` in a table's entries.
pub open spec fn table_get(es: Seq<(Seq<char>, ValueV)>, key: Seq<char>) -> Option<ValueV>
    decreases es.len(),
{
    if es.len() == 0 {
        Option::None
    } else if es.first().0 == key {
        Option::Some(es.first().1)
    } else {
        table_get(es.drop_first(), key)
    }
}

/// The name of an entry: its `name` string, if the entry is a table and
/// holds one.
pub open spec fn entry_name(e: ValueV) -> Option<Seq<char>> {
    match e {
        ValueV::Table(es) => match table_get(es, name_chars()) {
            Option::Some(ValueV::Str(s)) => Option::Some(s),
            _ => Option::None,
        },
        _ => Option::None,
    }
}

/// The declared inputs of an entry: the elements of its `inputs` array,
/// or nothing when the entry has no such array.
pub open spec fn entry_inputs(e: ValueV) -> Seq<ValueV> {
    match e {
        ValueV::Table(es) => match table_get(es, inputs_chars()) {
            Option::Some(ValueV::List(is)) => is,
            _ => Seq::empty(),
        },
        _ => Seq::empty(),
    }
}

/// The `type` string of one declared input, if it has one.
pub open spec fn input_type_str(iv: ValueV) -> Option<Seq<char>> {
    match iv {
        ValueV::Table(es) => match table_get(es, type_chars()) {
            Option::Some(ValueV::Str(s)) => Option::Some(s),
            _ => Option::None,
        },
        _ => Option::None,
    }
}

/// The first entry whose name equals `m`.
pub open spec fn first_match(es: Seq<ValueV>, m: Seq<char>) -> Option<ValueV>
    decreases es.len(),
{
    if es.len() == 0 {
        Option::None
    } else if entry_name(es.first()) == Option::Some(m) {
        Option::Some(es.first())
    } else {
        first_match(es.drop_first(), m)
    }
}

/// The type strings of an entry's inputs, in declaration order,
/// skipping inputs that carry no `type` string.
pub open spec fn entry_param_types(inputs: Seq<ValueV>) -> Seq<Seq<char>>
    decreases inputs.len(),
{
    if inputs.len() == 0 {
        Seq::empty()
    } else {
        match input_type_str(inputs.last()) {
            Option::Some(s) => entry_param_types(inputs.drop_last()).push(s),
            Option::None => entry_param_types(inputs.drop_last()),
        }
    }
}

/// The type strings of an entry's inputs when every input carries one;
/// `None` as soon as one does not.
pub open spec fn entry_event_types(inputs: Seq<ValueV>) -> Option<Seq<Seq<char>>>
    decreases inputs.len(),
{
    if inputs.len() == 0 {
        Option::Some(Seq::empty())
    } else {
        match entry_event_types(inputs.drop_last()) {
            Option::None => Option::None,
            Option::Some(ts) => match input_type_str(inputs.last()) {
                Option::Some(s) => Option::Some(ts.push(s)),
                Option::None => Option::None,
            },
        }
    }
}

/// The ordered parameter types of method `m` in document `doc`.
pub open spec fn spec_parameter_types(doc: ValueV, m: Seq<char>) -> Result<
    Seq<Seq<char>>,
    EthError,
> {
    match doc {
        ValueV::List(es) => match first_match(es, m) {
            Option::None => Err(EthError::MethodNotFound),
            Option::Some(e) => Ok(entry_param_types(entry_inputs(e))),
        },
        _ => Err(EthError::MalformedAbi),
    }
}

/// The comma-joined concatenation of type strings.
pub open spec fn joined(types: Seq<Seq<char>>) -> Seq<char>
    decreases types.len(),
{
    if types.len() == 0 {
        Seq::empty()
    } else if types.len() == 1 {
        types[0]
    } else {
        joined(types.drop_last()) + seq![','] + types.last()
    }
}

/// The canonical signature string `name(type1,type2,...)`.
pub open spec fn sig_chars(name: Seq<char>, types: Seq<Seq<char>>) -> Seq<char> {
    name + seq!['('] + joined(types) + seq![')']
}

/// The canonical signature of event `m` in document `doc`.
pub open spec fn spec_event_signature(doc: ValueV, m: Seq<char>) -> Result<Seq<char>, EthError> {
    match doc {
        ValueV::List(es) => match first_match(es, m) {
            Option::None => Err(EthError::EventNotFound),
            Option::Some(e) => match entry_event_types(entry_inputs(e)) {
                Option::None => Err(EthError::MalformedAbi),
                Option::Some(ts) => Ok(sig_chars(m, ts)),
            },
        },
        _ => Err(EthError::MalformedAbi),
    }
}

/// Character-by-character string equality.
pub fn str_eq(a: &str, b: &str) -> (r: bool)
    ensures
        r <==> a@ == b@,
{
    let n = a.unicode_len();
    if n != b.unicode_len() {
        proof {
            assert(a@.len() != b@.len());
        }
        return false;
    }
    let mut i: usize = 0;
    while i < n
        invariant
            0 <= i <= n,
            n == a@.len(),
            n == b@.len(),
            forall|k: int| 0 <= k < i ==> a@[k] == b@[k],
        decreases n - i,
    {
        if a.get_char(i) != b.get_char(i) {
            return false;
        }
        i = i + 1;
    }
    proof {
        assert(a@ =~= b@);
    }
    true
}

/// Look a key up in a table value's entries, front to back.
fn table_get_exec<'a>(es: &'a Vec<(String, Value)>, key: &str) -> (r: Option<&'a Value>)
    ensures
        match r {
            Option::Some(v) => table_get(entries_view(es@), key@) == Option::Some(value_view(*v)),
            Option::None => table_get(entries_view(es@), key@) is None,
        },
{
    let ghost ev = entries_view(es@);
    proof {
        lemma_entries_view(es@);
        assert(ev.skip(0) =~= ev);
    }
    let mut i: usize = 0;
    while i < es.len()
        invariant
            0 <= i <= es@.len(),
            ev == entries_view(es@),
            ev.len() == es@.len(),
            forall|k: int| 0 <= k < es@.len() ==> ev[k] == ((#[trigger] es@[k]).0@, value_view(
                es@[k].1,
            )),
            forall|k: int| 0 <= k < i ==> (#[trigger] ev[k]).0 != key@,
            table_get(ev, key@) == table_get(ev.skip(i as int), key@),
        decreases es@.len() - i,
    {
        let hit = str_eq(es[i].0.as_str(), key);
        proof {
            assert(ev.skip(i as int).first() == ev[i as int]);
            assert(ev.skip(i as int).drop_first() =~= ev.skip(i as int + 1));
        }
        if hit {
            return Some(&es[i].1);
        }
        i = i + 1;
    }
    proof {
        assert(ev.skip(es@.len() as int) =~= Seq::<(Seq<char>, ValueV)>::empty());
    }
    None
}

/// The `name` string of an entry value, if it is a table holding one.
fn entry_name_exec<'a>(e: &'a Value) -> (r: Option<&'a String>)
    ensures
        match r {
            Option::Some(s) => entry_name(value_view(*e)) == Option::Some(s@),
            Option::None => entry_name(value_view(*e)) is None,
        },
{
    match e {
        Value::Table(es) => {
            proof {
                reveal_strlit("name");
                assert("name"@ =~= name_chars());
            }
            match table_get_exec(es, "name") {
                Some(Value::Str(s)) => Some(s),
                _ => None,
            }
        },
        _ => None,
    }
}

/// The ordered parameter type strings of one entry's inputs.
fn entry_param_types_exec(e: &Value) -> (r: Vec<String>)
    ensures
        r.deep_view() == entry_param_types(entry_inputs(value_view(*e))),
{
    let mut out: Vec<String> = Vec::new();
    let inputs: &Vec<Value> = match e {
        Value::Table(es) => {
            proof {
                reveal_strlit("inputs");
                assert("inputs"@ =~= inputs_chars());
            }
            match table_get_exec(es, "inputs") {
                Some(Value::List(is)) => is,
                _ => {
                    proof {
                        assert(out.deep_view() =~= entry_param_types(
                            entry_inputs(value_view(*e)),
                        ));
                    }
                    return out;
                },
            }
        },
        _ => {
            proof {
                assert(out.deep_view() =~= entry_param_types(entry_inputs(value_view(*e))));
            }
            return out;
        },
    };
    let ghost iv = values_view(inputs@);
    proof {
        lemma_values_view(inputs@);
        assert(iv =~= entry_inputs(value_view(*e)));
        assert(iv.subrange(0, 0) =~= Seq::<ValueV>::empty());
    }
    let mut i: usize = 0;
    while i < inputs.len()
        invariant
            0 <= i <= inputs@.len(),
            iv == values_view(inputs@),
            iv.len() == inputs@.len(),
            forall|k: int| 0 <= k < inputs@.len() ==> iv[k] == value_view(#[trigger] inputs@[k]),
            out.deep_view() == entry_param_types(iv.subrange(0, i as int)),
        decreases inputs@.len() - i,
    {
        proof {
            assert(iv.subrange(0, i as int + 1).drop_last() =~= iv.subrange(0, i as int));
            assert(iv.subrange(0, i as int + 1).last() == iv[i as int]);
        }
        let ghost out0 = out.deep_view();
        match input_type_exec(&inputs[i]) {
            Some(s) => {
                let copy = s.clone();
                proof {
                    assert(copy@ == s@);
                }
                out.push(copy);
                proof {
                    assert(out.deep_view() =~= out0.push(s@));
                }
            },
            None => {},
        }
        i = i + 1;
    }
    proof {
        assert(iv.subrange(0, inputs@.len() as int) =~= iv);
    }
    out
}

/// The `type` string of one declared input, if it has one.
fn input_type_exec<'a>(iv: &'a Value) -> (r: Option<&'a String>)
    ensures
        match r {
            Option::Some(s) => input_type_str(value_view(*iv)) == Option::Some(s@),
            Option::None => input_type_str(value_view(*iv)) is None,
        },
{
    match iv {
        Value::Table(es) => {
            proof {
                reveal_strlit("type");
                assert("type"@ =~= type_chars());
            }
            match table_get_exec(es, "type") {
                Some(Value::Str(s)) => Some(s),
                _ => None,
            }
        },
        _ => None,
    }
}

/// Find the first entry of the document whose name equals `m`.
fn first_match_exec<'a>(es: &'a Vec<Value>, m: &str) -> (r: Option<&'a Value>)
    ensures
        match r {
            Option::Some(e) => first_match(values_view(es@), m@) == Option::Some(value_view(*e)),
            Option::None => first_match(values_view(es@), m@) is None,
        },
{
    let ghost ev = values_view(es@);
    proof {
        lemma_values_view(es@);
        assert(ev.skip(0) =~= ev);
    }
    let mut i: usize = 0;
    while i < es.len()
        invariant
            0 <= i <= es@.len(),
            ev == values_view(es@),
            ev.len() == es@.len(),
            forall|k: int| 0 <= k < es@.len() ==> ev[k] == value_view(#[trigger] es@[k]),
            forall|k: int| 0 <= k < i ==> entry_name(#[trigger] ev[k]) != Option::Some(m@),
            first_match(ev, m@) == first_match(ev.skip(i as int), m@),
        decreases es@.len() - i,
    {
        proof {
            assert(ev.skip(i as int).first() == ev[i as int]);
            assert(ev.skip(i as int).drop_first() =~= ev.skip(i as int + 1));
        }
        let matched = match entry_name_exec(&es[i]) {
            Some(name) => str_eq(name.as_str(), m),
            None => false,
        };
        if matched {
            return Some(&es[i]);
        }
        i = i + 1;
    }
    proof {
        assert(ev.skip(es@.len() as int) =~= Seq::<ValueV>::empty());
    }
    None
}

/// The ordered parameter types of method `method` in the interface
/// document: the `type` strings of the first matching entry's inputs,
/// in declaration order.
pub fn gather_inputs(method: &str, json_abi: &Value) -> (r: Result<Vec<String>, EthError>)
    ensures
        match r {
            Ok(ts) => spec_parameter_types(value_view(*json_abi), method@) == Ok::<
                Seq<Seq<char>>,
                EthError,
            >(ts.deep_view()),
            Err(e) => spec_parameter_types(value_view(*json_abi), method@) == Err::<
                Seq<Seq<char>>,
                EthError,
            >(e),
        },
{
    let es = match json_abi {
        Value::List(es) => es,
        _ => {
            return Err(EthError::MalformedAbi);
        },
    };
    let entry = match first_match_exec(es, method) {
        Some(e) => e,
        None => {
            return Err(EthError::MethodNotFound);
        },
    };
    Ok(entry_param_types_exec(entry))
}

/// The event type strings of one entry's inputs; `None` when an input
/// carries no `type` string.
fn entry_event_types_exec(e: &Value) -> (r: Option<Vec<String>>)
    ensures
        match r {
            Option::Some(ts) => entry_event_types(entry_inputs(value_view(*e)))
                == Option::Some(ts.deep_view()),
            Option::None => entry_event_types(entry_inputs(value_view(*e))) is None,
        },
{
    let mut out: Vec<String> = Vec::new();
    let inputs: &Vec<Value> = match e {
        Value::Table(es) => {
            proof {
                reveal_strlit("inputs");
                assert("inputs"@ =~= inputs_chars());
            }
            match table_get_exec(es, "inputs") {
                Some(Value::List(is)) => is,
                _ => {
                    proof {
                        assert(out.deep_view() =~= Seq::<Seq<char>>::empty());
                    }
                    return Some(out);
                },
            }
        },
        _ => {
            proof {
                assert(out.deep_view() =~= Seq::<Seq<char>>::empty());
            }
            return Some(out);
        },
    };
    let ghost iv = values_view(inputs@);
    proof {
        lemma_values_view(inputs@);
        assert(iv =~= entry_inputs(value_view(*e)));
        assert(iv.subrange(0, 0) =~= Seq::<ValueV>::empty());
    }
    let mut i: usize = 0;
    while i < inputs.len()
        invariant
            0 <= i <= inputs@.len(),
            iv == values_view(inputs@),
            iv == entry_inputs(value_view(*e)),
            iv.len() == inputs@.len(),
            forall|k: int| 0 <= k < inputs@.len() ==> iv[k] == value_view(#[trigger] inputs@[k]),
            entry_event_types(iv.subrange(0, i as int)) == Option::Some(out.deep_view()),
        decreases inputs@.len() - i,
    {
        proof {
            assert(iv.subrange(0, i as int + 1).drop_last() =~= iv.subrange(0, i as int));
            assert(iv.subrange(0, i as int + 1).last() == iv[i as int]);
        }
        let ghost out0 = out.deep_view();
        match input_type_exec(&inputs[i]) {
            Some(s) => {
                let copy = s.clone();
                proof {
                    assert(copy@ == s@);
                }
                out.push(copy);
                proof {
                    assert(out.deep_view() =~= out0.push(s@));
                }
            },
            None => {
                proof {
                    lemma_event_types_err_extends(iv, i + 1);
                }
                return None;
            },
        }
        i = i + 1;
    }
    proof {
        assert(iv.subrange(0, inputs@.len() as int) =~= iv);
    }
    Some(out)
}

/// A missing `type` string in a prefix decides the whole list.
proof fn lemma_event_types_err_extends(inputs: Seq<ValueV>, i: int)
    requires
        0 <= i <= inputs.len(),
        entry_event_types(inputs.subrange(0, i)) is None,
    ensures
        entry_event_types(inputs) is None,
    decreases inputs.len() - i,
{
    if i == inputs.len() {
        assert(inputs.subrange(0, i) =~= inputs);
    } else {
        assert(inputs.subrange(0, i + 1).drop_last() =~= inputs.subrange(0, i));
        lemma_event_types_err_extends(inputs, i + 1);
    }
}

/// The canonical signature string of event `event` in the interface
/// document: the event's name followed by its input types in
/// parentheses, comma-separated.
pub fn event_signature(event: &str, json_abi: &Value) -> (r: Result<String, EthError>)
    ensures
        match r {
            Ok(s) => spec_event_signature(value_view(*json_abi), event@) == Ok::<
                Seq<char>,
                EthError,
            >(s@),
            Err(e) => spec_event_signature(value_view(*json_abi), event@) == Err::<
                Seq<char>,
                EthError,
            >(e),
        },
{
    let es = match json_abi {
        Value::List(es) => es,
        _ => {
            return Err(EthError::MalformedAbi);
        },
    };
    let entry = match first_match_exec(es, event) {
        Some(e) => e,
        None => {
            return Err(EthError::EventNotFound);
        },
    };
    let types = match entry_event_types_exec(entry) {
        Some(ts) => ts,
        None => {
            return Err(EthError::MalformedAbi);
        },
    };
    let ghost tv = types.deep_view();
    let mut s = String::from_str(event);
    s.append("(");
    proof {
        reveal_strlit("(");
        assert("("@ =~= seq!['(']);
        assert(tv.subrange(0, 0) =~= Seq::<Seq<char>>::empty());
        assert(s@ =~= event@ + seq!['('] + joined(tv.subrange(0, 0)));
    }
    let mut i: usize = 0;
    while i < types.len()
        invariant
            0 <= i <= types@.len(),
            tv == types.deep_view(),
            tv.len() == types@.len(),
            forall|k: int| 0 <= k < types@.len() ==> tv[k] == #[trigger] types@[k]@,
            s@ == event@ + seq!['('] + joined(tv.subrange(0, i as int)),
        decreases types@.len() - i,
    {
        proof {
            assert(tv.subrange(0, i as int + 1).drop_last() =~= tv.subrange(0, i as int));
            assert(tv.subrange(0, i as int + 1).last() == tv[i as int]);
        }
        if i != 0 {
            s.append(",");
            proof {
                reveal_strlit(",");
                assert(","@ =~= seq![',']);
            }
        }
        s.append(types[i].as_str());
        proof {
            if i == 0 {
                assert(joined(tv.subrange(0, 1)) == tv[0]);
                assert(s@ =~= event@ + seq!['('] + joined(tv.subrange(0, 1)));
            } else {
                assert(joined(tv.subrange(0, i as int + 1)) == joined(tv.subrange(0, i as int))
                    + seq![','] + tv[i as int]);
                assert(s@ =~= event@ + seq!['('] + joined(tv.subrange(0, i as int + 1)));
            }
        }
        i = i + 1;
    }
    s.append(")");
    proof {
        reveal_strlit(")");
        assert(")"@ =~= seq![')']);
        assert(tv.subrange(0, types@.len() as int) =~= tv);
        assert(s@ =~= sig_chars(event@, tv));
    }
    Ok(s)
}

/// With no matching entry anywhere, the lookup finds nothing.
proof fn lemma_first_match_none(es: Seq<ValueV>, m: Seq<char>)
    requires
        forall|i: int| 0 <= i < es.len() ==> entry_name(#[trigger] es[i]) != Option::Some(m),
    ensures
        first_match(es, m) is None,
    decreases es.len(),
{
    if es.len() > 0 {
        assert(entry_name(es[0]) != Option::Some(m));
        assert forall|i: int| 0 <= i < es.drop_first().len() implies entry_name(
            #[trigger] es.drop_first()[i],
        ) != Option::Some(m) by {
            assert(es.drop_first()[i] == es[i + 1]);
        }
        lemma_first_match_none(es.drop_first(), m);
    }
}

/// The lookup finds exactly the first matching entry.
proof fn lemma_first_match_at(es: Seq<ValueV>, m: Seq<char>, k: int)
    requires
        0 <= k < es.len(),
        entry_name(es[k]) == Option::Some(m),
        forall|i: int| 0 <= i < k ==> entry_name(#[trigger] es[i]) != Option::Some(m),
    ensures
        first_match(es, m) == Option::Some(es[k]),
    decreases k,
{
    if k == 0 {
        assert(es.first() == es[0]);
    } else {
        assert(entry_name(es.first()) != Option::Some(m));
        assert(es.drop_first()[k - 1] == es[k]);
        assert forall|i: int| 0 <= i < k - 1 implies entry_name(#[trigger] es.drop_first()[i])
            != Option::Some(m) by {
            assert(es.drop_first()[i] == es[i + 1]);
        }
        lemma_first_match_at(es.drop_first(), m, k - 1);
    }
}

/// When every declared input carries a `type` string, the collected
/// list holds exactly those strings, one per input, in declaration
/// order.
pub proof fn lemma_param_types_exact(inputs: Seq<ValueV>)
    requires
        forall|i: int| 0 <= i < inputs.len() ==> input_type_str(#[trigger] inputs[i]) is Some,
    ensures
        entry_param_types(inputs).len() == inputs.len(),
        forall|i: int| 0 <= i < inputs.len() ==> entry_param_types(inputs)[i] == input_type_str(
            #[trigger] inputs[i],
        )->Some_0,
    decreases inputs.len(),
{
    if inputs.len() > 0 {
        assert forall|i: int| 0 <= i < inputs.drop_last().len() implies input_type_str(
            #[trigger] inputs.drop_last()[i],
        ) is Some by {
            assert(inputs.drop_last()[i] == inputs[i]);
        }
        lemma_param_types_exact(inputs.drop_last());
        assert(input_type_str(inputs.last()) is Some);
        assert forall|i: int| 0 <= i < inputs.len() implies entry_param_types(inputs)[i]
            == input_type_str(#[trigger] inputs[i])->Some_0 by {
            if i < inputs.len() - 1 {
                assert(inputs.drop_last()[i] == inputs[i]);
                assert(entry_param_types(inputs)[i] == entry_param_types(inputs.drop_last())[i]);
            }
        }
    }
}

/// The catalog law, lookup half: over a well-formed document — an array
/// of entries — a method lookup fails with `MethodNotFound` exactly
/// when no entry carries the name, and otherwise answers from the first
/// entry that does.
pub proof fn lemma_parameter_types_lookup(es: Seq<ValueV>, m: Seq<char>)
    ensures
        (forall|i: int| 0 <= i < es.len() ==> entry_name(#[trigger] es[i]) != Option::Some(m))
            ==> spec_parameter_types(ValueV::List(es), m) == Err::<Seq<Seq<char>>, EthError>(
            EthError::MethodNotFound,
        ),
        forall|k: int|
            0 <= k < es.len() && entry_name(#[trigger] es[k]) == Option::Some(m) && (forall|i: int|
                0 <= i < k ==> entry_name(#[trigger] es[i]) != Option::Some(m))
                ==> spec_parameter_types(ValueV::List(es), m) == Ok::<Seq<Seq<char>>, EthError>(
                entry_param_types(entry_inputs(es[k])),
            ),
{
    if forall|i: int| 0 <= i < es.len() ==> entry_name(#[trigger] es[i]) != Option::Some(m) {
        lemma_first_match_none(es, m);
    }
    assert forall|k: int|
        0 <= k < es.len() && entry_name(#[trigger] es[k]) == Option::Some(m) && (forall|i: int|
            0 <= i < k ==> entry_name(#[trigger] es[i]) != Option::Some(m))
            implies spec_parameter_types(ValueV::List(es), m) == Ok::<Seq<Seq<char>>, EthError>(
        entry_param_types(entry_inputs(es[k])),
    ) by {
        lemma_first_match_at(es, m, k);
    }
}

/// The catalog law, content half: for the first matching entry, the
/// answer is exactly the declared inputs' `type` strings in declaration
/// order, provided each input declares one.
pub proof fn lemma_parameter_types_exact(es: Seq<ValueV>, m: Seq<char>, k: int)
    requires
        0 <= k < es.len(),
        entry_name(es[k]) == Option::Some(m),
        forall|i: int| 0 <= i < k ==> entry_name(#[trigger] es[i]) != Option::Some(m),
        forall|i: int|
            0 <= i < entry_inputs(es[k]).len() ==> input_type_str(
                #[trigger] entry_inputs(es[k])[i],
            ) is Some,
    ensures
        spec_parameter_types(ValueV::List(es), m) matches Ok(ts) && ts.len() == entry_inputs(
            es[k],
        ).len() && forall|i: int|
            0 <= i < ts.len() ==> ts[i] == input_type_str(#[trigger] entry_inputs(es[k])[i])
                ->Some_0,
{
    lemma_first_match_at(es, m, k);
    lemma_param_types_exact(entry_inputs(es[k]));
}

} // verus!
