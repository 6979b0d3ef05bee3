//! Textual JSON rendering of payload values, used to hand a script
//! evaluation context over as one string.

use vstd::prelude::*;

use crate::data::DataModel;
use crate::data::DataValue;
use crate::data::array_model;
use crate::data::entries_model;
use crate::data::lemma_array_model;
use crate::data::lemma_entries_model;

verus! {

broadcast use vstd::seq::group_seq_axioms, vstd::std_specs::vec::group_vec_axioms;

pub open spec fn hex_digit(d: int) -> char {
    if d == 0 {
        '0'
    } else if d == 1 {
        '1'
    } else if d == 2 {
        '2'
    } else if d == 3 {
        '3'
    } else if d == 4 {
        '4'
    } else if d == 5 {
        '5'
    } else if d == 6 {
        '6'
    } else if d == 7 {
        '7'
    } else if d == 8 {
        '8'
    } else if d == 9 {
        '9'
    } else if d == 10 {
        'a'
    } else if d == 11 {
        'b'
    } else if d == 12 {
        'c'
    } else if d == 13 {
        'd'
    } else if d == 14 {
        'e'
    } else {
        'f'
    }
}

/// A character that passes into a JSON string literal unchanged.
pub open spec fn plain_char(c: char) -> bool {
    c != '"' && c != '\\' && (c as u32) >= 32
}

/// The JSON escape of one character: quotes and backslashes are
/// backslash-escaped, control characters take the \u00XX form.
pub open spec fn escape_char(c: char) -> Seq<char> {
    if c == '"' {
        seq!['\\', '"']
    } else if c == '\\' {
        seq!['\\', '\\']
    } else if (c as u32) < 32 {
        seq!['\\', 'u', '0', '0', hex_digit((c as u32) as int / 16), hex_digit((c as u32) as int % 16)]
    } else {
        seq![c]
    }
}

pub open spec fn escape_text(s: Seq<char>) -> Seq<char>
    decreases s.len(),
{
    if s.len() == 0 {
        Seq::<char>::empty()
    } else {
        escape_char(s[0]) + escape_text(s.subrange(1, s.len() as int))
    }
}

/// The JSON text of a value.  Numbers render as their stored literal text.
pub open spec fn json_text(m: DataModel) -> Seq<char>
    decreases m,
{
    match m {
        DataModel::Null => seq!['n', 'u', 'l', 'l'],
        DataModel::Bool(b) => if b {
            seq!['t', 'r', 'u', 'e']
        } else {
            seq!['f', 'a', 'l', 's', 'e']
        },
        DataModel::Number(s) => s,
        DataModel::Text(s) => seq!['"'] + escape_text(s) + seq!['"'],
        DataModel::Array(es) => seq!['['] + json_items(es) + seq![']'],
        DataModel::Object(es) => seq!['{'] + json_entries(es) + seq!['}'],
    }
}

pub open spec fn json_items(es: Seq<DataModel>) -> Seq<char>
    decreases es,
{
    if es.len() == 0 {
        Seq::<char>::empty()
    } else if es.len() == 1 {
        json_text(es[0])
    } else {
        json_text(es[0]) + seq![','] + json_items(es.subrange(1, es.len() as int))
    }
}

pub open spec fn json_entry(e: (Seq<char>, DataModel)) -> Seq<char>
    decreases e,
{
    seq!['"'] + escape_text(e.0) + seq!['"', ':'] + json_text(e.1)
}

pub open spec fn json_entries(es: Seq<(Seq<char>, DataModel)>) -> Seq<char>
    decreases es,
{
    if es.len() == 0 {
        Seq::<char>::empty()
    } else if es.len() == 1 {
        json_entry(es[0])
    } else {
        json_entry(es[0]) + seq![','] + json_entries(es.subrange(1, es.len() as int))
    }
}

/// Escaping distributes over concatenation.
pub proof fn lemma_escape_concat(a: Seq<char>, b: Seq<char>)
    ensures
        escape_text(a + b) == escape_text(a) + escape_text(b),
    decreases a.len(),
{
    if a.len() == 0 {
        assert(a + b =~= b);
        assert(escape_text(a) + escape_text(b) =~= escape_text(b));
    } else {
        let a1 = a.subrange(1, a.len() as int);
        lemma_escape_concat(a1, b);
        assert((a + b).subrange(1, (a + b).len() as int) =~= a1 + b);
        assert((a + b)[0] == a[0]);
        assert(escape_text(a + b) =~= escape_text(a) + escape_text(b));
    }
}

/// A run of plain characters escapes to itself.
pub proof fn lemma_escape_plain(s: Seq<char>)
    requires
        forall|i: int| 0 <= i < s.len() ==> plain_char(#[trigger] s[i]),
    ensures
        escape_text(s) == s,
    decreases s.len(),
{
    if s.len() > 0 {
        let s1 = s.subrange(1, s.len() as int);
        assert(forall|i: int| 0 <= i < s1.len() ==> s1[i] == s[i + 1]);
        lemma_escape_plain(s1);
        assert(escape_char(s[0]) == seq![s[0]]);
        assert(escape_text(s) =~= s);
    }
}

/// Appends one hexadecimal digit character.
fn append_hex(out: &mut String, d: u32)
    requires
        d < 16,
    ensures
        final(out)@ == old(out)@ + seq![hex_digit(d as int)],
{
    proof {
        reveal_strlit("0");
        reveal_strlit("1");
        reveal_strlit("2");
        reveal_strlit("3");
        reveal_strlit("4");
        reveal_strlit("5");
        reveal_strlit("6");
        reveal_strlit("7");
        reveal_strlit("8");
        reveal_strlit("9");
        reveal_strlit("a");
        reveal_strlit("b");
        reveal_strlit("c");
        reveal_strlit("d");
        reveal_strlit("e");
        reveal_strlit("f");
    }
    if d == 0 {
        out.append("0");
    } else if d == 1 {
        out.append("1");
    } else if d == 2 {
        out.append("2");
    } else if d == 3 {
        out.append("3");
    } else if d == 4 {
        out.append("4");
    } else if d == 5 {
        out.append("5");
    } else if d == 6 {
        out.append("6");
    } else if d == 7 {
        out.append("7");
    } else if d == 8 {
        out.append("8");
    } else if d == 9 {
        out.append("9");
    } else if d == 10 {
        out.append("a");
    } else if d == 11 {
        out.append("b");
    } else if d == 12 {
        out.append("c");
    } else if d == 13 {
        out.append("d");
    } else if d == 14 {
        out.append("e");
    } else {
        out.append("f");
    }
    assert(final(out)@ =~= old(out)@ + seq![hex_digit(d as int)]);
}

/// Appends the JSON-escaped form of a string's characters.
fn append_escaped(out: &mut String, s: &str)
    ensures
        final(out)@ == old(out)@ + escape_text(s@),
{
    let n = s.unicode_len();
    let mut start: usize = 0;
    let mut i: usize = 0;
    proof {
        assert(s@.subrange(0, 0) =~= Seq::<char>::empty());
        assert(old(out)@ + escape_text(s@.subrange(0, 0)) =~= old(out)@);
    }
    while i < n
        invariant
            start <= i <= n == s@.len(),
            out@ == old(out)@ + escape_text(s@.subrange(0, start as int)),
            forall|j: int| start <= j < i ==> plain_char(#[trigger] s@[j]),
        decreases n - i,
    {
        let c = s.get_char(i);
        if c == '"' || c == '\\' || (c as u32) < 32 {
            let run = s.substring_char(start, i);
            out.append(run);
            if c == '"' {
                proof {
                    reveal_strlit("\\\"");
                }
                out.append("\\\"");
            } else if c == '\\' {
                proof {
                    reveal_strlit("\\\\");
                }
                out.append("\\\\");
            } else {
                proof {
                    reveal_strlit("\\u00");
                }
                out.append("\\u00");
                let code = c as u32;
                append_hex(out, code / 16);
                append_hex(out, code % 16);
            }
            proof {
                let head = s@.subrange(0, start as int);
                let run_chars = s@.subrange(start as int, i as int);
                assert(s@.subrange(0, i as int) =~= head + run_chars);
                lemma_escape_concat(head, run_chars);
                lemma_escape_plain(run_chars);
                assert(s@.subrange(0, i + 1) =~= s@.subrange(0, i as int) + seq![s@[i as int]]);
                lemma_escape_concat(s@.subrange(0, i as int), seq![s@[i as int]]);
                assert(escape_text(seq![s@[i as int]]) =~= escape_char(s@[i as int])) by {
                    assert(seq![s@[i as int]][0] == s@[i as int]);
                    assert(escape_text(Seq::<char>::empty()) =~= Seq::<char>::empty());
                    assert(seq![s@[i as int]].subrange(1, 1) =~= Seq::<char>::empty());
                    assert(escape_char(s@[i as int]) + Seq::<char>::empty() =~= escape_char(
                        s@[i as int],
                    ));
                }
                assert(out@ =~= old(out)@ + escape_text(s@.subrange(0, i + 1)));
            }
            start = i + 1;
        }
        i = i + 1;
    }
    let run = s.substring_char(start, n);
    out.append(run);
    proof {
        let head = s@.subrange(0, start as int);
        let run_chars = s@.subrange(start as int, n as int);
        assert(s@.subrange(0, n as int) =~= head + run_chars);
        lemma_escape_concat(head, run_chars);
        lemma_escape_plain(run_chars);
        assert(s@.subrange(0, n as int) =~= s@);
        assert(final(out)@ =~= old(out)@ + escape_text(s@));
    }
}

/// A further array element extends the rendered items with a comma joint.
pub proof fn lemma_json_items_push(es: Seq<DataModel>, e: DataModel)
    ensures
        json_items(es.push(e)) == if es.len() == 0 {
            json_text(e)
        } else {
            json_items(es) + seq![','] + json_text(e)
        },
    decreases es.len(),
{
    let whole = es.push(e);
    if es.len() == 0 {
        assert(whole.len() == 1);
        assert(whole[0] == e);
    } else if es.len() == 1 {
        assert(whole[0] == es[0]);
        assert(whole.subrange(1, 2) =~= seq![e]);
        assert(json_items(seq![e]) == json_text(e)) by {
            assert(seq![e][0] == e);
        }
    } else {
        assert(whole[0] == es[0]);
        assert(whole.subrange(1, whole.len() as int) =~= es.subrange(1, es.len() as int).push(e));
        lemma_json_items_push(es.subrange(1, es.len() as int), e);
        assert(json_items(whole) =~= json_items(es) + seq![','] + json_text(e));
    }
}

/// A further object entry extends the rendered entries with a comma joint.
pub proof fn lemma_json_entries_push(es: Seq<(Seq<char>, DataModel)>, e: (Seq<char>, DataModel))
    ensures
        json_entries(es.push(e)) == if es.len() == 0 {
            json_entry(e)
        } else {
            json_entries(es) + seq![','] + json_entry(e)
        },
    decreases es.len(),
{
    let whole = es.push(e);
    if es.len() == 0 {
        assert(whole.len() == 1);
        assert(whole[0] == e);
    } else if es.len() == 1 {
        assert(whole[0] == es[0]);
        assert(whole.subrange(1, 2) =~= seq![e]);
        assert(json_entries(seq![e]) == json_entry(e)) by {
            assert(seq![e][0] == e);
        }
    } else {
        assert(whole[0] == es[0]);
        assert(whole.subrange(1, whole.len() as int) =~= es.subrange(1, es.len() as int).push(e));
        lemma_json_entries_push(es.subrange(1, es.len() as int), e);
        assert(json_entries(whole) =~= json_entries(es) + seq![','] + json_entry(e));
    }
}

/// Appends the JSON text of a value.
fn append_json(out: &mut String, v: &DataValue)
    ensures
        final(out)@ == old(out)@ + json_text(v@),
    decreases v,
{
    match v {
        DataValue::Null => {
            proof {
                reveal_strlit("null");
            }
            out.append("null");
            assert(final(out)@ =~= old(out)@ + json_text(v@));
        },
        DataValue::Bool(b) => {
            proof {
                reveal_strlit("true");
                reveal_strlit("false");
            }
            if *b {
                out.append("true");
            } else {
                out.append("false");
            }
            assert(final(out)@ =~= old(out)@ + json_text(v@));
        },
        DataValue::Number(s) => {
            out.append(s.as_str());
        },
        DataValue::Text(s) => {
            proof {
                reveal_strlit("\"");
            }
            out.append("\"");
            append_escaped(out, s.as_str());
            out.append("\"");
            assert(final(out)@ =~= old(out)@ + json_text(v@));
        },
        DataValue::Array(items) => {
            proof {
                reveal_strlit("[");
                reveal_strlit("]");
                lemma_array_model(items@);
            }
            let ghost ms = array_model(items@);
            out.append("[");
            let n = items.len();
            let mut i: usize = 0;
            proof {
                assert(ms.subrange(0, 0) =~= Seq::<DataModel>::empty());
                assert(out@ =~= old(out)@ + seq!['['] + json_items(ms.subrange(0, 0)));
            }
            while i < n
                invariant
                    *v == DataValue::Array(*items),
                    i <= n == items@.len(),
                    ms == array_model(items@),
                    ms.len() == n,
                    forall|j: int| 0 <= j < n ==> #[trigger] ms[j] == items@[j]@,
                    out@ == old(out)@ + seq!['['] + json_items(ms.subrange(0, i as int)),
                decreases n - i,
            {
                proof {
                    reveal_strlit(",");
                    assert(decreases_to!(*v => (*v)->Array_0));
                    assert(decreases_to!(*items => items@));
                    assert(decreases_to!(items@ => items@[i as int]));
                }
                if i > 0 {
                    out.append(",");
                }
                append_json(out, &items[i]);
                proof {
                    lemma_json_items_push(ms.subrange(0, i as int), ms[i as int]);
                    assert(ms.subrange(0, i + 1) =~= ms.subrange(0, i as int).push(ms[i as int]));
                    assert(out@ =~= old(out)@ + seq!['['] + json_items(ms.subrange(0, i + 1)));
                }
                i = i + 1;
            }
            out.append("]");
            proof {
                assert(ms.subrange(0, n as int) =~= ms);
                assert(final(out)@ =~= old(out)@ + json_text(v@));
            }
        },
        DataValue::Object(entries) => {
            proof {
                reveal_strlit("{");
                reveal_strlit("}");
                lemma_entries_model(entries@);
            }
            let ghost ms = entries_model(entries@);
            out.append("{");
            let n = entries.len();
            let mut i: usize = 0;
            proof {
                assert(ms.subrange(0, 0) =~= Seq::<(Seq<char>, DataModel)>::empty());
                assert(out@ =~= old(out)@ + seq!['{'] + json_entries(ms.subrange(0, 0)));
            }
            while i < n
                invariant
                    *v == DataValue::Object(*entries),
                    i <= n == entries@.len(),
                    ms == entries_model(entries@),
                    ms.len() == n,
                    forall|j: int|
                        0 <= j < n ==> #[trigger] ms[j] == (entries@[j].0@, entries@[j].1@),
                    out@ == old(out)@ + seq!['{'] + json_entries(ms.subrange(0, i as int)),
                decreases n - i,
            {
                proof {
                    reveal_strlit(",");
                    reveal_strlit("\"");
                    reveal_strlit("\":");
                    assert(decreases_to!(*v => (*v)->Object_0));
                    assert(decreases_to!(*entries => entries@));
                    assert(decreases_to!(entries@ => entries@[i as int]));
                    assert(decreases_to!(entries@[i as int] => entries@[i as int].1));
                }
                if i > 0 {
                    out.append(",");
                }
                out.append("\"");
                append_escaped(out, entries[i].0.as_str());
                out.append("\":");
                append_json(out, &entries[i].1);
                proof {
                    lemma_json_entries_push(ms.subrange(0, i as int), ms[i as int]);
                    assert(ms.subrange(0, i + 1) =~= ms.subrange(0, i as int).push(ms[i as int]));
                    assert(out@ =~= old(out)@ + seq!['{'] + json_entries(ms.subrange(0, i + 1)));
                }
                i = i + 1;
            }
            out.append("}");
            proof {
                assert(ms.subrange(0, n as int) =~= ms);
                assert(final(out)@ =~= old(out)@ + json_text(v@));
            }
        },
    }
}

impl DataValue {
    /// The JSON text of the value, as one string.
    pub fn to_json_string(&self) -> (r: String)
        ensures
            r@ == json_text(self@),
    {
        let mut out = String::new();
        append_json(&mut out, self);
        proof {
            assert(out@ =~= json_text(self@));
        }
        out
    }

    /// A number value holding the decimal rendering of a signed integer.
    pub fn from_i64(v: i64) -> (r: DataValue)
        ensures
            r@ == DataModel::Number(crate::nums::int_digits(v as int)),
    {
        let mut s = String::new();
        crate::nums::append_i64(&mut s, v);
        proof {
            assert(s@ =~= crate::nums::int_digits(v as int));
        }
        DataValue::Number(s)
    }

    /// A number value holding the decimal rendering of an unsigned integer.
    pub fn from_u64(n: u64) -> (r: DataValue)
        ensures
            r@ == DataModel::Number(crate::nums::nat_digits(n as nat)),
    {
        let mut s = String::new();
        crate::nums::append_u64(&mut s, n);
        proof {
            assert(s@ =~= crate::nums::nat_digits(n as nat));
        }
        DataValue::Number(s)
    }
}

} // verus!
