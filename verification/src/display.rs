//! The rendering of whole run-time values, as `dbg` and the rendering of a
//! value inside another show them: tuples, arrays, `Perhaps` and `Result`
//! values and enum values with their fields, around the scalars.

use vstd::prelude::*;

use crate::evaluator::RtValue;
use crate::text::{debug_str, push_signed, push_str, signed_decimal, str_debug};

verus! {

/// `a` sorts strictly before `b` in the order of `str`: character by
/// character, a proper prefix first.
pub open spec fn key_lt(a: Seq<char>, b: Seq<char>) -> bool
    decreases a.len(),
{
    if a.len() == 0 {
        b.len() > 0
    } else if b.len() == 0 {
        false
    } else if a[0] != b[0] {
        (a[0] as u32) < (b[0] as u32)
    } else {
        key_lt(a.drop_first(), b.drop_first())
    }
}

/// The order `list` of field indices with index `i` placed after every
/// index whose key does not sort after its own: one step of a stable sort.
pub open spec fn ins_idx(keys: Seq<Seq<char>>, list: Seq<usize>, i: usize) -> Seq<usize>
    decreases list.len(),
{
    if list.len() == 0 {
        seq![i]
    } else if key_lt(keys[i as int], keys[list[0] as int]) {
        seq![i] + list
    } else {
        seq![list[0]] + ins_idx(keys, list.drop_first(), i)
    }
}

/// The indices `0..n` of `keys` in the order of a stable sort by key.
pub open spec fn sort_idx(keys: Seq<Seq<char>>, n: nat) -> Seq<usize>
    decreases n,
{
    if n == 0 {
        Seq::empty()
    } else {
        ins_idx(keys, sort_idx(keys, (n - 1) as nat), (n - 1) as usize)
    }
}

/// The names of an enum value's fields.
pub open spec fn field_keys(fs: Seq<(String, RtValue)>) -> Seq<Seq<char>> {
    fs.map_values(|f: (String, RtValue)| f.0@)
}

/// `v` holds nothing that has no rendering here: no range and no value of
/// the kind `Other` stands for.
pub open spec fn renderable(v: RtValue) -> bool
    decreases v, 0nat,
{
    match v {
        RtValue::Range { .. } => false,
        RtValue::Other => false,
        RtValue::Tuple(items) => renderable_all(items@),
        RtValue::Array(items) => renderable_all(items@),
        RtValue::Perhaps(Some(b)) => renderable(*b),
        RtValue::ResultOk(b) => renderable(*b),
        RtValue::ResultErr(b) => renderable(*b),
        RtValue::Enum { fields, .. } => renderable_fields(fields@),
        _ => true,
    }
}

/// Each of `s` is [`renderable`].
pub open spec fn renderable_all(s: Seq<RtValue>) -> bool
    decreases s, 1nat,
{
    if s.len() == 0 {
        true
    } else {
        renderable_all(s.drop_last()) && renderable(s.last())
    }
}

/// The value of each of `fs` is [`renderable`].
pub open spec fn renderable_fields(fs: Seq<(String, RtValue)>) -> bool
    decreases fs, 1nat,
{
    if fs.len() == 0 {
        true
    } else {
        renderable_fields(fs.drop_last()) && renderable(fs.last().1)
    }
}

/// The rendering of `v`: integers in decimal, booleans as words, strings
/// quoted and escaped as `Debug` writes them, `()`, tuples in round and
/// arrays in square brackets with their items separated by `, `,
/// `Some(..)`, `None`, `Ok(..)`, `Err(..)`, and enum values as
/// `Name::Variant`, with their fields sorted by name in `{ name: value }`
/// where they have any.
pub open spec fn shown(v: RtValue) -> Seq<char>
    decreases v, 0nat,
{
    match v {
        RtValue::Int(n) => signed_decimal(n as int),
        RtValue::Bool(b) => if b { "true"@ } else { "false"@ },
        RtValue::Str(s) => str_debug(s@),
        RtValue::Unit => "()"@,
        RtValue::Tuple(items) => "("@ + shown_list(items@) + ")"@,
        RtValue::Array(items) => "["@ + shown_list(items@) + "]"@,
        RtValue::Perhaps(Some(b)) => "Some("@ + shown(*b) + ")"@,
        RtValue::Perhaps(None) => "None"@,
        RtValue::ResultOk(b) => "Ok("@ + shown(*b) + ")"@,
        RtValue::ResultErr(b) => "Err("@ + shown(*b) + ")"@,
        RtValue::Enum { name, variant, fields } => if fields.len() == 0 {
            name@ + "::"@ + variant@
        } else {
            name@ + "::"@ + variant@ + "{ "@ + shown_fields(
                fields@,
                sort_idx(field_keys(fields@), fields.len() as nat),
            ) + " }"@
        },
        _ => Seq::empty(),
    }
}

/// The renderings of `s`, separated by `, `.
pub open spec fn shown_list(s: Seq<RtValue>) -> Seq<char>
    decreases s, 1nat,
{
    if s.len() == 0 {
        Seq::empty()
    } else if s.len() == 1 {
        shown(s[0])
    } else {
        shown_list(s.drop_last()) + ", "@ + shown(s.last())
    }
}

/// The fields of `fs` in the order of the indices `order`, each as
/// `name: value`, separated by `, `.
pub open spec fn shown_fields(fs: Seq<(String, RtValue)>, order: Seq<usize>) -> Seq<char>
    decreases fs, 1nat, order.len(),
{
    if order.len() == 0 {
        Seq::empty()
    } else {
        let k = order.last() as int;
        let item = if 0 <= k < fs.len() {
            fs[k].0@ + ": "@ + shown(fs[k].1)
        } else {
            Seq::empty()
        };
        if order.len() == 1 {
            item
        } else {
            shown_fields(fs, order.drop_last()) + ", "@ + item
        }
    }
}

/// Whether `a` sorts strictly before `b` (see [`key_lt`]).
fn key_less(a: &str, b: &str) -> (r: bool)
    ensures
        r == key_lt(a@, b@),
{
    let n = a.unicode_len();
    let m = b.unicode_len();
    let mut i: usize = 0;
    assert(a@.skip(0) =~= a@);
    assert(b@.skip(0) =~= b@);
    while i < n && i < m
        invariant
            i <= n,
            i <= m,
            n == a@.len(),
            m == b@.len(),
            key_lt(a@, b@) == key_lt(a@.skip(i as int), b@.skip(i as int)),
        decreases n - i,
    {
        let x = a.get_char(i);
        let y = b.get_char(i);
        assert(a@.skip(i as int)[0] == x);
        assert(b@.skip(i as int)[0] == y);
        if x != y {
            return (x as u32) < (y as u32);
        }
        assert(a@.skip(i as int).drop_first() =~= a@.skip(i + 1));
        assert(b@.skip(i as int).drop_first() =~= b@.skip(i + 1));
        i += 1;
    }
    assert(i == n ==> a@.skip(i as int).len() == 0);
    assert(i == m ==> b@.skip(i as int).len() == 0);
    n < m
}

proof fn lemma_ins_at(keys: Seq<Seq<char>>, list: Seq<usize>, i: usize, p: int)
    requires
        0 <= p <= list.len(),
        forall|j: int| 0 <= j < p ==> !key_lt(keys[i as int], keys[#[trigger] list[j] as int]),
        p < list.len() ==> key_lt(keys[i as int], keys[list[p] as int]),
    ensures
        ins_idx(keys, list, i) == list.insert(p, i),
    decreases list.len(),
{
    if list.len() == 0 {
        assert(list.insert(p, i) =~= seq![i]);
    } else if p == 0 {
        assert(list.insert(p, i) =~= seq![i] + list);
    } else {
        let t = list.drop_first();
        assert forall|j: int| 0 <= j < p - 1 implies !key_lt(keys[i as int], keys[#[trigger] t[j] as int]) by {
            assert(t[j] == list[j + 1]);
        }
        if p < list.len() {
            assert(t[p - 1] == list[p]);
        }
        lemma_ins_at(keys, t, i, p - 1);
        assert(list.insert(p, i) =~= seq![list[0]] + t.insert(p - 1, i));
    }
}

proof fn lemma_ins_in_range(keys: Seq<Seq<char>>, list: Seq<usize>, i: usize, n: nat)
    requires
        i < n,
        forall|j: int| 0 <= j < list.len() ==> #[trigger] list[j] < n,
    ensures
        ins_idx(keys, list, i).len() == list.len() + 1,
        forall|j: int| 0 <= j < ins_idx(keys, list, i).len() ==> #[trigger] ins_idx(keys, list, i)[j] < n,
    decreases list.len(),
{
    if list.len() > 0 && !key_lt(keys[i as int], keys[list[0] as int]) {
        let t = list.drop_first();
        assert forall|j: int| 0 <= j < t.len() implies #[trigger] t[j] < n by {
            assert(t[j] == list[j + 1]);
        }
        lemma_ins_in_range(keys, t, i, n);
        let r = ins_idx(keys, list, i);
        assert forall|j: int| 0 <= j < r.len() implies #[trigger] r[j] < n by {
            if j > 0 {
                assert(r[j] == ins_idx(keys, t, i)[j - 1]);
            }
        }
    }
}

proof fn lemma_sort_in_range(keys: Seq<Seq<char>>, n: nat)
    ensures
        sort_idx(keys, n).len() == n,
        forall|j: int| 0 <= j < n ==> #[trigger] sort_idx(keys, n)[j] < n,
    decreases n,
{
    if n > 0 {
        lemma_sort_in_range(keys, (n - 1) as nat);
        lemma_ins_in_range(keys, sort_idx(keys, (n - 1) as nat), (n - 1) as usize, n);
    }
}

/// The indices of `fields` in the order of a stable sort by name (see
/// [`sort_idx`]).
fn field_order(fields: &Vec<(String, RtValue)>) -> (r: Vec<usize>)
    ensures
        r@ == sort_idx(field_keys(fields@), fields.len() as nat),
{
    let ghost keys = field_keys(fields@);
    let mut list: Vec<usize> = Vec::new();
    let mut i: usize = 0;
    while i < fields.len()
        invariant
            i <= fields.len(),
            keys == field_keys(fields@),
            keys.len() == fields.len(),
            list@ == sort_idx(keys, i as nat),
        decreases fields.len() - i,
    {
        proof { lemma_sort_in_range(keys, i as nat); }
        let mut p: usize = 0;
        let mut stop = false;
        while p < list.len() && !stop
            invariant
                stop ==> p < list.len() && key_lt(keys[i as int], keys[list@[p as int] as int]),
                i < fields.len(),
                keys == field_keys(fields@),
                keys.len() == fields.len(),
                list@ == sort_idx(keys, i as nat),
                list.len() == i,
                forall|j: int| 0 <= j < list.len() ==> #[trigger] list@[j] < i,
                p <= list.len(),
                forall|j: int| 0 <= j < p ==> !key_lt(keys[i as int], keys[#[trigger] list@[j] as int]),
            decreases list.len() - p + (if stop { 0int } else { 1int }),
        {
            let k = list[p];
            assert(keys[k as int] == fields@[k as int].0@);
            assert(keys[i as int] == fields@[i as int].0@);
            if key_less(fields[i].0.as_str(), fields[k].0.as_str()) {
                stop = true;
            } else {
                p += 1;
            }
        }
        proof { lemma_ins_at(keys, list@, i, p as int); }
        list.insert(p, i);
        i += 1;
    }
    list
}

/// Appends the rendering of `v` (see [`shown`]) to `out`.
fn write_value(v: &RtValue, out: &mut String)
    requires
        renderable(*v),
    ensures
        final(out)@ == old(out)@ + shown(*v),
    decreases v, 0nat,
{
    let ghost start = out@;
    match v {
        RtValue::Int(n) => push_signed(out, *n),
        RtValue::Bool(b) => push_str(out, if *b { "true" } else { "false" }),
        RtValue::Str(s) => {
            let q = debug_str(s.as_str());
            push_str(out, q.as_str());
        },
        RtValue::Unit => push_str(out, "()"),
        RtValue::Tuple(items) => {
            push_str(out, "(");
            write_list(items, out);
            push_str(out, ")");
        },
        RtValue::Array(items) => {
            push_str(out, "[");
            write_list(items, out);
            push_str(out, "]");
        },
        RtValue::Perhaps(Some(b)) => {
            push_str(out, "Some(");
            write_value(b, out);
            push_str(out, ")");
        },
        RtValue::Perhaps(None) => push_str(out, "None"),
        RtValue::ResultOk(b) => {
            push_str(out, "Ok(");
            write_value(b, out);
            push_str(out, ")");
        },
        RtValue::ResultErr(b) => {
            push_str(out, "Err(");
            write_value(b, out);
            push_str(out, ")");
        },
        RtValue::Enum { name, variant, fields } => {
            push_str(out, name.as_str());
            push_str(out, "::");
            push_str(out, variant.as_str());
            if fields.len() != 0 {
                push_str(out, "{ ");
                let order = field_order(fields);
                proof { lemma_sort_in_range(field_keys(fields@), fields.len() as nat); }
                write_fields(fields, &order, out);
                push_str(out, " }");
            }
        },
        _ => {},
    }
    assert(out@ =~= start + shown(*v));
}

/// Appends the renderings of `items`, separated by `, `, to `out`.
fn write_list(items: &Vec<RtValue>, out: &mut String)
    requires
        renderable_all(items@),
    ensures
        final(out)@ == old(out)@ + shown_list(items@),
    decreases items, 1nat,
{
    let ghost start = out@;
    let mut i: usize = 0;
    assert(items@.take(0) =~= Seq::<RtValue>::empty());
    while i < items.len()
        invariant
            i <= items.len(),
            renderable_all(items@),
            out@ == start + shown_list(items@.take(i as int)),
        decreases items.len() - i,
    {
        proof { lemma_renderable_at(items@, i as int); }
        if i > 0 {
            push_str(out, ", ");
        }
        write_value(&items[i], out);
        proof {
            let t = items@.take(i + 1);
            assert(t.drop_last() =~= items@.take(i as int));
            if i == 0 {
                assert(t.len() == 1);
            }
        }
        i += 1;
    }
    assert(items@.take(items.len() as int) =~= items@);
}

proof fn lemma_renderable_at(s: Seq<RtValue>, i: int)
    requires
        renderable_all(s),
        0 <= i < s.len(),
    ensures
        renderable(s[i]),
    decreases s.len(),
{
    if i < s.len() - 1 {
        lemma_renderable_at(s.drop_last(), i);
    }
}

proof fn lemma_renderable_field(fs: Seq<(String, RtValue)>, i: int)
    requires
        renderable_fields(fs),
        0 <= i < fs.len(),
    ensures
        renderable(fs[i].1),
    decreases fs.len(),
{
    if i < fs.len() - 1 {
        lemma_renderable_field(fs.drop_last(), i);
    }
}

/// Appends the fields of `fields` in the order `order`, each as
/// `name: value` and separated by `, `, to `out` (see [`shown_fields`]).
fn write_fields(fields: &Vec<(String, RtValue)>, order: &Vec<usize>, out: &mut String)
    requires
        renderable_fields(fields@),
        forall|j: int| 0 <= j < order.len() ==> #[trigger] order@[j] < fields.len(),
    ensures
        final(out)@ == old(out)@ + shown_fields(fields@, order@),
    decreases fields, 1nat,
{
    let ghost start = out@;
    let mut i: usize = 0;
    assert(order@.take(0) =~= Seq::<usize>::empty());
    while i < order.len()
        invariant
            i <= order.len(),
            renderable_fields(fields@),
            forall|j: int| 0 <= j < order.len() ==> #[trigger] order@[j] < fields.len(),
            out@ == start + shown_fields(fields@, order@.take(i as int)),
        decreases order.len() - i,
    {
        let k = order[i];
        proof { lemma_renderable_field(fields@, k as int); }
        if i > 0 {
            push_str(out, ", ");
        }
        push_str(out, fields[k].0.as_str());
        push_str(out, ": ");
        write_value(&fields[k].1, out);
        proof {
            let t = order@.take(i + 1);
            assert(t.drop_last() =~= order@.take(i as int));
            assert(t.last() == k);
        }
        i += 1;
    }
    assert(order@.take(order.len() as int) =~= order@);
}

/// The rendering of `v` (see [`shown`]).
pub fn format_rt_value(v: &RtValue) -> (r: String)
    requires
        renderable(*v),
    ensures
        r@ == shown(*v),
{
    let mut out = String::new();
    write_value(v, &mut out);
    assert(out@ =~= shown(*v));
    out
}

} // verus!
