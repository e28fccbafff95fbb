//! Values given on the command line: several options, each a list of words.
use vstd::prelude::*;
use crate::compile::append_strings;
use crate::directives::{key_value_of, kvs, split_directive_words, split_words_spec, strs, KeyValue};

verus! {

/// The words of several command-line values, split as dependency
/// directives are (white space, `,` and `;`; quotes group), in order.
pub open spec fn cli_words(values: Seq<Seq<char>>) -> Seq<Seq<char>>
    decreases values.len(),
{
    if values.len() == 0 {
        Seq::empty()
    } else {
        cli_words(values.drop_last()) + split_words_spec(values.last(), true)
    }
}

/// Splits command-line values into words.
pub fn split_cli_words(values: &Vec<String>) -> (r: Vec<String>)
    ensures
        strs(r@) == cli_words(strs(values@)),
{
    let ghost vs = strs(values@);
    let mut out: Vec<String> = Vec::new();
    let mut i: usize = 0;
    assert(vs.take(0) =~= Seq::<Seq<char>>::empty());
    while i < values.len()
        invariant
            vs == strs(values@),
            i <= values.len(),
            strs(out@) == cli_words(vs.take(i as int)),
        decreases values.len() - i,
    {
        assert(vs.take(i + 1).drop_last() =~= vs.take(i as int));
        assert(vs.take(i + 1).last() == values@[i as int]@);
        let words = split_directive_words(values[i].as_str());
        append_strings(&mut out, &words);
        i += 1;
    }
    assert(vs.take(values.len() as int) =~= vs);
    out
}

/// Splits command-line values into `key[=value]` entries, one per word.
pub fn split_cli_key_values(values: &Vec<String>) -> (r: Vec<KeyValue>)
    ensures
        kvs(r@) == cli_words(strs(values@)).map_values(|w: Seq<char>| key_value_of(w)),
{
    let words = split_cli_words(values);
    let ghost ws = strs(words@);
    let mut out: Vec<KeyValue> = Vec::new();
    let mut i: usize = 0;
    while i < words.len()
        invariant
            ws == strs(words@),
            i <= words.len(),
            kvs(out@) == ws.take(i as int).map_values(|w: Seq<char>| key_value_of(w)),
        decreases words.len() - i,
    {
        let ghost before = kvs(out@);
        let kv = KeyValue::parse(words[i].as_str());
        out.push(kv);
        assert(kvs(out@) =~= before.push(key_value_of(ws[i as int])));
        assert(ws.take(i + 1).map_values(|w: Seq<char>| key_value_of(w)) =~= ws.take(
            i as int,
        ).map_values(|w: Seq<char>| key_value_of(w)).push(key_value_of(ws[i as int])));
        i += 1;
    }
    assert(ws.take(words.len() as int) =~= ws);
    out
}

} // verus!
