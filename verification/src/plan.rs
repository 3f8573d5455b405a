//! The plan that `synapse plan` shows for a program: one line per item.
use vstd::prelude::*;
use crate::ast::{
    fields_view, item_view, items_view, lemma_items_view_take, rules_view, strs_view, Item, ItemV,
};
use crate::text::{nat_text, push_u64_text};

verus! {

/// The plan lines of an item, each after `indent`; a namespace shows its
/// items indented by two more spaces.
pub open spec fn plan_lines(it: ItemV, indent: Seq<char>) -> Seq<Seq<char>>
    decreases it,
{
    match it {
        ItemV::Memory { name, fields, .. } => seq![
            indent + "+ "@ + name + " (new, "@ + nat_text(fields.len()) + " fields)"@,
        ],
        ItemV::Handler { event, .. } => seq![indent + "+ on "@ + event + " (new handler)"@],
        ItemV::Query { name, .. } => seq![indent + "+ query "@ + name + " (new)"@],
        ItemV::Update { target, rules } => seq![
            indent + "+ update "@ + target + " ("@ + nat_text(rules.len()) + " rules)"@,
        ],
        ItemV::Policy { name, rules } => seq![
            indent + "+ policy "@ + name + " ("@ + nat_text(rules.len()) + " rules)"@,
        ],
        ItemV::ExternFn { name, .. } => seq![indent + "+ @extern fn "@ + name],
        ItemV::Namespace { name, items } => seq![indent + "namespace "@ + name + ":"@] + plans(
            items,
            indent + "  "@,
        ),
        ItemV::Config(_) => seq![indent + "~ config block"@],
        ItemV::Channel(_) => Seq::empty(),
    }
}

/// The plan lines of items in order.
pub open spec fn plans(items: Seq<ItemV>, indent: Seq<char>) -> Seq<Seq<char>>
    decreases items,
{
    if items.len() == 0 {
        Seq::empty()
    } else {
        plans(items.subrange(0, items.len() - 1), indent) + plan_lines(
            items[items.len() - 1],
            indent,
        )
    }
}

/// `indent`, `head`, `name`, then `tail`.
fn named_line(indent: &str, head: &str, name: &str, tail: &str) -> (r: String)
    ensures
        r@ == indent@ + head@ + name@ + tail@,
{
    let mut s = String::from_str(indent);
    s.append(head);
    s.append(name);
    s.append(tail);
    s
}

/// `indent`, `head`, `name`, ` (` or `(new, `, a count, then `tail`.
fn counted_line(indent: &str, head: &str, name: &str, mid: &str, n: usize, tail: &str) -> (r: String)
    ensures
        r@ == indent@ + head@ + name@ + mid@ + nat_text(n as nat) + tail@,
{
    let mut s = String::from_str(indent);
    s.append(head);
    s.append(name);
    s.append(mid);
    push_u64_text(&mut s, n as u64);
    s.append(tail);
    s
}

/// The plan lines of an item (see [`plan_lines`]).
pub fn item_plan_lines(item: &Item, indent: &String) -> (r: Vec<String>)
    ensures
        strs_view(r@) == plan_lines(item_view(*item), indent@),
    decreases item,
{
    let mut out: Vec<String> = Vec::new();
    let ind = indent.as_str();
    match item {
        Item::Memory(m) => {
            out.push(counted_line(ind, "+ ", m.name.as_str(), " (new, ", m.fields.len(), " fields)"));
        },
        Item::Handler(h) => {
            out.push(named_line(ind, "+ on ", h.event.as_str(), " (new handler)"));
        },
        Item::Query(q) => {
            out.push(named_line(ind, "+ query ", q.name.as_str(), " (new)"));
        },
        Item::Update(u) => {
            out.push(counted_line(ind, "+ update ", u.target.as_str(), " (", u.rules.len(), " rules)"));
        },
        Item::Policy(p) => {
            out.push(counted_line(ind, "+ policy ", p.name.as_str(), " (", p.rules.len(), " rules)"));
        },
        Item::ExternFn(f) => {
            out.push(named_line(ind, "+ @extern fn ", f.name.as_str(), ""));
            proof {
                reveal_strlit("");
            }
        },
        Item::Namespace(ns) => {
            out.push(named_line(ind, "namespace ", ns.name.as_str(), ":"));
            let mut inner = indent.clone();
            inner.append("  ");
            let mut rest = items_plan_lines(&ns.items, &inner);
            out.append(&mut rest);
        },
        Item::Config(_) => {
            out.push(named_line(ind, "~ config block", "", ""));
            proof {
                reveal_strlit("");
            }
        },
        Item::Channel(_) => {},
    }
    assert(strs_view(out@) =~= plan_lines(item_view(*item), indent@));
    out
}

/// The plan lines of items in order (see [`plans`]).
pub fn items_plan_lines(items: &Vec<Item>, indent: &String) -> (r: Vec<String>)
    ensures
        strs_view(r@) == plans(items_view(items@), indent@),
    decreases items,
{
    let mut out: Vec<String> = Vec::new();
    let mut i: usize = 0;
    assert(items_view(items@.take(0)) =~= Seq::<ItemV>::empty());
    while i < items.len()
        invariant
            i <= items.len(),
            strs_view(out@) == plans(items_view(items@.take(i as int)), indent@),
        decreases items.len() - i,
    {
        let mut lines = item_plan_lines(&items[i], indent);
        let ghost before = out@;
        let ghost added = lines@;
        out.append(&mut lines);
        proof {
            lemma_items_view_take(items@, i as int);
            let y = items_view(items@.take(i as int));
            assert(y.push(item_view(items@[i as int])).subrange(0, y.len() as int) =~= y);
            assert(strs_view(out@) =~= strs_view(before) + strs_view(added));
        }
        i = i + 1;
    }
    assert(items@.take(i as int) =~= items@);
    out
}

} // verus!
