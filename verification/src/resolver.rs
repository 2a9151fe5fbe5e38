//! The enumerator conflict resolver: given an ordered list of
//! (name, initial value) pairs, it makes all values pairwise distinct by a
//! deterministic, strictly sequential auto-increment, preserving the order
//! and names of the input.

use vstd::prelude::*;

use crate::GenError;
use crate::node::Node;
use crate::node::NodeView;
use crate::node::attrs_set;
use crate::node::attr_find;
use crate::numtext::dec_val;
use crate::numtext::int_dec;
use crate::numtext::is_dec_i32;
use crate::numtext::i32_to_dec;
use crate::numtext::parse_i32;

verus! {

/// One enumerator candidate: a variant name and the decimal text of its
/// declared initial value.
pub struct NameAndInitialValue {
    pub name: String,
    pub initial_value: String,
}

/// The value texts of a candidate sequence, in order.
pub open spec fn values_of(s: Seq<NameAndInitialValue>) -> Seq<Seq<char>> {
    Seq::new(s.len(), |i: int| s[i].initial_value@)
}

/// The views of a sequence of strings, in order.
pub open spec fn str_views(s: Seq<String>) -> Seq<Seq<char>> {
    Seq::new(s.len(), |i: int| s[i]@)
}

/// The smallest value in `[c, i32::MAX]` whose decimal text is not yet
/// taken, or `None` when every such text is taken.
pub open spec fn probe_from(c: int, seen: Seq<Seq<char>>) -> Option<int>
    decreases i32::MAX as int + 1 - c,
    when c <= i32::MAX as int + 1
{
    if c > i32::MAX as int {
        None
    } else if !seen.contains(int_dec(c)) {
        Some(c)
    } else {
        probe_from(c + 1, seen)
    }
}

/// The value text a candidate receives, given the set of already-taken
/// texts: its own text when free, else the text of the first free
/// successor of its parsed value.
pub open spec fn pick_value(v: Seq<char>, seen: Seq<Seq<char>>) -> Option<Seq<char>> {
    if !seen.contains(v) {
        Some(v)
    } else {
        match probe_from(dec_val(v) + 1, seen) {
            Some(m) => Some(int_dec(m)),
            None => None,
        }
    }
}

/// The greedy, order-dependent resolution of a value list against a set
/// of already-taken texts; `None` when the representable range runs out.
pub open spec fn resolve_values(vals: Seq<Seq<char>>, seen: Seq<Seq<char>>) -> Option<
    Seq<Seq<char>>,
>
    decreases vals.len(),
{
    if vals.len() == 0 {
        Some(Seq::empty())
    } else {
        match pick_value(vals[0], seen) {
            None => None,
            Some(w) => match resolve_values(vals.subrange(1, vals.len() as int), seen.push(w)) {
                None => None,
                Some(rest) => Some(seq![w] + rest),
            },
        }
    }
}

/// Resolve the initial-value conflicts of the given candidates, in input
/// order.
///
/// The result has the same length and the same names in the same order as
/// the input, its values are exactly the greedy resolution `resolve_values`
/// describes, and they are pairwise distinct. The error comes exactly when
/// some conflicting candidate finds every successor text up to the limit
/// already taken.
#[verifier::loop_isolation(false)]
pub fn resolve_enum_initials(enum_variants: &Vec<NameAndInitialValue>) -> (r: Result<
    Vec<NameAndInitialValue>,
    GenError,
>)
    requires
        forall|i: int|
            0 <= i < enum_variants@.len() ==> is_dec_i32(
                (#[trigger] enum_variants@[i]).initial_value@,
            ),
    ensures
        match r {
            Ok(out) => {
                &&& out@.len() == enum_variants@.len()
                &&& forall|i: int|
                    0 <= i < out@.len() ==> (#[trigger] out@[i]).name@
                        == enum_variants@[i].name@
                &&& resolve_values(values_of(enum_variants@), Seq::empty()) == Some(
                    values_of(out@),
                )
                &&& forall|i: int, j: int|
                    0 <= i < j < out@.len() ==> out@[i].initial_value@
                        != out@[j].initial_value@
            },
            Err(e) => {
                &&& e == GenError::ValueExhausted
                &&& resolve_values(values_of(enum_variants@), Seq::empty()) is None
            },
        },
{
    let ghost all = values_of(enum_variants@);
    let mut out: Vec<NameAndInitialValue> = Vec::new();
    let mut seen: Vec<String> = Vec::new();
    let mut i: usize = 0;
    proof {
        assert(all.subrange(0, all.len() as int) =~= all);
        assert(str_views(seen@) =~= Seq::<Seq<char>>::empty());
        assert(values_of(out@) =~= Seq::<Seq<char>>::empty());
    }
    while i < enum_variants.len()
        invariant
            i <= enum_variants.len(),
            all == values_of(enum_variants@),
            forall|k: int|
                0 <= k < enum_variants@.len() ==> is_dec_i32(
                    (#[trigger] enum_variants@[k]).initial_value@,
                ),
            out@.len() == i as int,
            forall|k: int|
                0 <= k < i as int ==> (#[trigger] out@[k]).name@ == enum_variants@[k].name@,
            str_views(seen@) == values_of(out@),
            forall|a: int, b: int|
                0 <= a < b < out@.len() ==> out@[a].initial_value@ != out@[b].initial_value@,
            match resolve_values(all.subrange(i as int, all.len() as int), values_of(out@)) {
                None => resolve_values(all, Seq::empty()) is None,
                Some(rest) => resolve_values(all, Seq::empty()) == Some(
                    values_of(out@) + rest,
                ),
            },
        decreases enum_variants.len() - i,
    {
        let ghost suffix = all.subrange(i as int, all.len() as int);
        let ghost seen_vals = values_of(out@);
        proof {
            assert(suffix[0] == enum_variants@[i as int].initial_value@);
            assert(suffix.subrange(1, suffix.len() as int) =~= all.subrange(
                i as int + 1,
                all.len() as int,
            ));
        }
        let variant = &enum_variants[i];
        let taken = contains_string(&seen, &variant.initial_value);
        let value: String;
        if !taken {
            value = variant.initial_value.clone();
        } else {
            let parsed = parse_i32(variant.initial_value.as_str());
            let mut c: i32 = parsed;
            let mut found: bool = false;
            while !found
                invariant
                    parsed <= c,
                    !found ==> probe_from(parsed as int + 1, seen_vals) == probe_from(
                        c as int + 1,
                        seen_vals,
                    ),
                    found ==> probe_from(parsed as int + 1, seen_vals) == Some(c as int)
                        && !seen_vals.contains(int_dec(c as int)),
                decreases (if found { 0int } else { 1int }), i32::MAX - c,
            {
                if c == i32::MAX {
                    proof {
                        assert(probe_from(c as int + 1, seen_vals) is None);
                        assert(pick_value(suffix[0], seen_vals) is None);
                        assert(resolve_values(suffix, seen_vals) is None);
                    }
                    return Err(GenError::ValueExhausted);
                }
                c = c + 1;
                let text = i32_to_dec(c);
                if !contains_string(&seen, &text) {
                    proof {
                        assert(probe_from(c as int, seen_vals) == Some(c as int));
                    }
                    found = true;
                } else {
                    proof {
                        assert(probe_from(c as int, seen_vals) == probe_from(
                            c as int + 1,
                            seen_vals,
                        ));
                    }
                }
            }
            value = i32_to_dec(c);
        }
        let ghost picked_val = value@;
        proof {
            assert(pick_value(suffix[0], seen_vals) == Some(picked_val));
        }
        let ghost pre_seen = seen@;
        let ghost pre_out = out@;
        seen.push(value.clone());
        out.push(NameAndInitialValue { name: variant.name.clone(), initial_value: value });
        proof {
            assert forall|k: int| 0 <= k < seen@.len() implies #[trigger] str_views(seen@)[k]
                == values_of(out@)[k] by {
                if k < pre_seen.len() {
                    assert(seen@[k] == pre_seen[k]);
                    assert(out@[k] == pre_out[k]);
                    assert(str_views(pre_seen)[k] == values_of(pre_out)[k]);
                } else {
                    assert(seen@[k]@ == picked_val);
                    assert(out@[k].initial_value@ == picked_val);
                }
            }
            assert(str_views(seen@) =~= values_of(out@));
            assert(values_of(out@) =~= seen_vals.push(picked_val));
            assert forall|a: int, b: int|
                0 <= a < b < out@.len() implies out@[a].initial_value@
                != out@[b].initial_value@ by {
                if b == out@.len() - 1 {
                    assert(!seen_vals.contains(picked_val));
                    assert(seen_vals[a] == out@[a].initial_value@);
                }
            }
            let new_suffix = all.subrange(i as int + 1, all.len() as int);
            assert(resolve_values(suffix, seen_vals) == (match resolve_values(
                new_suffix,
                seen_vals.push(picked_val),
            ) {
                None => None::<Seq<Seq<char>>>,
                Some(rest) => Some(seq![picked_val] + rest),
            }));
            match resolve_values(new_suffix, values_of(out@)) {
                None => {
                    assert(resolve_values(all, Seq::empty()) is None);
                }
                Some(rest) => {
                    assert(seen_vals + (seq![picked_val] + rest) =~= values_of(out@) + rest);
                }
            }
        }
        i += 1;
    }
    proof {
        assert(all.subrange(i as int, all.len() as int).len() == 0);
        assert(resolve_values(all.subrange(i as int, all.len() as int), values_of(out@))
            == Some(Seq::<Seq<char>>::empty()));
        assert(values_of(out@) + Seq::<Seq<char>>::empty() =~= values_of(out@));
    }
    Ok(out)
}

/// Whether the vector holds a string with the given text.
#[verifier::loop_isolation(false)]
fn contains_string(v: &Vec<String>, s: &String) -> (r: bool)
    ensures
        r == str_views(v@).contains(s@),
{
    let mut i: usize = 0;
    while i < v.len()
        invariant
            i <= v.len(),
            forall|j: int| 0 <= j < i as int ==> (#[trigger] v@[j])@ != s@,
        decreases v.len() - i,
    {
        if v[i].eq(s) {
            proof {
                assert(str_views(v@)[i as int] == s@);
            }
            return true;
        }
        i += 1;
    }
    proof {
        if str_views(v@).contains(s@) {
            let j = choose|j: int| 0 <= j < str_views(v@).len() && str_views(v@)[j] == s@;
            assert(v@[j]@ != s@);
        }
    }
    false
}

/// The element a resolved candidate becomes: an `Enumerator` with `name`
/// and `value` attributes.
pub open spec fn enumerator_view(name: Seq<char>, value: Seq<char>) -> NodeView {
    NodeView {
        name: "Enumerator"@,
        attrs: seq![("name"@, name), ("value"@, value)],
        children: Seq::empty(),
        closed: false,
        content: None,
    }
}

/// Resolve the candidates' conflicts and shape each one as an
/// `Enumerator` element carrying its name and its final value.
#[verifier::loop_isolation(false)]
pub fn format_enum_initials(enum_variants: Vec<NameAndInitialValue>) -> (r: Result<
    Vec<Node>,
    GenError,
>)
    requires
        forall|i: int|
            0 <= i < enum_variants@.len() ==> is_dec_i32(
                (#[trigger] enum_variants@[i]).initial_value@,
            ),
    ensures
        match r {
            Ok(nodes) => {
                &&& nodes@.len() == enum_variants@.len()
                &&& exists|resolved: Seq<NameAndInitialValue>|
                    {
                        &&& resolve_values(values_of(enum_variants@), Seq::empty()) == Some(
                            values_of(resolved),
                        )
                        &&& resolved.len() == enum_variants@.len()
                        &&& forall|i: int|
                            0 <= i < nodes@.len() ==> (#[trigger] nodes@[i])@
                                == enumerator_view(
                                enum_variants@[i].name@,
                                resolved[i].initial_value@,
                            )
                    }
            },
            Err(e) => {
                &&& e == GenError::ValueExhausted
                &&& resolve_values(values_of(enum_variants@), Seq::empty()) is None
            },
        },
{
    let resolved = match resolve_enum_initials(&enum_variants) {
        Ok(resolved) => resolved,
        Err(e) => {
            return Err(e);
        },
    };
    let mut nodes: Vec<Node> = Vec::new();
    let mut i: usize = 0;
    while i < resolved.len()
        invariant
            i <= resolved.len(),
            resolved@.len() == enum_variants@.len(),
            forall|k: int|
                0 <= k < resolved@.len() ==> (#[trigger] resolved@[k]).name@
                    == enum_variants@[k].name@,
            nodes@.len() == i as int,
            forall|k: int|
                0 <= k < i as int ==> (#[trigger] nodes@[k])@ == enumerator_view(
                    enum_variants@[k].name@,
                    resolved@[k].initial_value@,
                ),
        decreases resolved.len() - i,
    {
        let pair = &resolved[i];
        let node = Node::new_str("Enumerator").attribute("name".to_owned(), pair.name.clone())
            .attribute("value".to_owned(), pair.initial_value.clone());
        proof {
            reveal_strlit("name");
            reveal_strlit("value");
            assert("name"@ != "value"@) by {
                assert("name"@.len() == 4);
                assert("value"@.len() == 5);
            }
            let e0 = Seq::<(Seq<char>, Seq<char>)>::empty();
            let a1 = attrs_set(e0, "name"@, pair.name@);
            assert(a1 =~= seq![("name"@, pair.name@)]);
            assert(attr_find(a1, "value"@) == -1) by {
                assert(a1[0].0 == "name"@);
                assert(attr_find(a1.subrange(1, 1), "value"@) == -1);
            }
            let a2 = attrs_set(a1, "value"@, pair.initial_value@);
            assert(a2 =~= seq![("name"@, pair.name@), ("value"@, pair.initial_value@)]);
            assert(node@ == enumerator_view(enum_variants@[i as int].name@, resolved@[i as int].initial_value@));
        }
        nodes.push(node);
        i += 1;
    }
    proof {
        let resolved_seq = resolved@;
        assert(resolve_values(values_of(enum_variants@), Seq::empty()) == Some(
            values_of(resolved_seq),
        ));
    }
    Ok(nodes)
}

} // verus!
