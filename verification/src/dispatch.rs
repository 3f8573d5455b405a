//! Routing of channel events to the handlers that a program declares for them.
//!
//! The runtime receives events from its channels and, for each, decides which
//! handlers run; this module is that decision. Running a handler is left to the
//! caller, which performs each returned action in order.
use vstd::prelude::*;
use crate::ast::{
    channel_view, item_view, items_view, lemma_items_view_take, opt_str_view, params_view,
    ChannelDef, ChannelDefV, Item, ItemV, Param, ParamV,
};
use crate::channels::{event_name, ChannelEvent, ChannelEventType};
use crate::strmap::{find_key, keyed, map_of};
use crate::text::text_eq;

verus! {

/// The channel definitions in `it`: itself, or those inside a namespace.
pub open spec fn channels_of(it: ItemV) -> Seq<ChannelDefV>
    decreases it,
{
    match it {
        ItemV::Channel(c) => seq![c],
        ItemV::Namespace { items, .. } => channels_in(items),
        _ => Seq::empty(),
    }
}

/// The channel definitions of `items` in order, those inside namespaces included.
pub open spec fn channels_in(items: Seq<ItemV>) -> Seq<ChannelDefV>
    decreases items,
{
    if items.len() == 0 {
        Seq::empty()
    } else {
        channels_in(items.subrange(0, items.len() - 1)) + channels_of(items[items.len() - 1])
    }
}

pub open spec fn channel_defs_view(s: Seq<ChannelDef>) -> Seq<ChannelDefV> {
    s.map_values(|c: ChannelDef| channel_view(c))
}

proof fn lemma_channels_step(s: Seq<Item>, i: int)
    requires
        0 <= i < s.len(),
    ensures
        channels_in(items_view(s.take(i + 1))) == channels_in(items_view(s.take(i)))
            + channels_of(item_view(s[i])),
{
    lemma_items_view_take(s, i);
    let y = items_view(s.take(i));
    assert(y.push(item_view(s[i])).subrange(0, y.len() as int) =~= y);
}

/// The channel definitions of `items`, those inside namespaces included, in
/// the order in which they are written.
pub fn collect_channel_defs(items: &[Item]) -> (r: Vec<ChannelDef>)
    ensures
        channel_defs_view(r@) == channels_in(items_view(items@)),
    decreases items@,
{
    let ghost s = items@;
    let mut defs: Vec<ChannelDef> = Vec::new();
    let mut i: usize = 0;
    assert(items_view(s.take(0)) =~= Seq::<ItemV>::empty());
    assert(channel_defs_view(defs@) =~= Seq::<ChannelDefV>::empty());
    while i < items.len()
        invariant
            i <= items.len(),
            s == items@,
            channel_defs_view(defs@) == channels_in(items_view(s.take(i as int))),
        decreases items.len() - i,
    {
        proof {
            lemma_channels_step(s, i as int);
        }
        let ghost before = defs@;
        match &items[i] {
            Item::Channel(ch) => {
                defs.push(ch.clone());
                assert(channel_defs_view(defs@) =~= channel_defs_view(before).push(
                    channel_view(*ch),
                ));
            },
            Item::Namespace(ns) => {
                let mut inner = collect_channel_defs(ns.items.as_slice());
                let ghost added = inner@;
                defs.append(&mut inner);
                assert(channel_defs_view(defs@) =~= channel_defs_view(before) + channel_defs_view(
                    added,
                ));
            },
            _ => {},
        }
        i = i + 1;
    }
    assert(s.take(i as int) =~= s);
    defs
}

/// What the runtime does for one handler that an event matches.
#[derive(Debug, Clone, PartialEq, Eq)]
pub enum DispatchAction {
    /// Hand the event's payload to the program's handler of this event.
    Emit(String),
    /// Run the body of handler `handler` of channel definition `channel`
    /// itself, its parameters bound from the payload.
    RunBody { channel: usize, handler: usize },
}

pub enum DispatchActionV {
    Emit(Seq<char>),
    RunBody { channel: int, handler: int },
}

impl View for DispatchAction {
    type V = DispatchActionV;

    open spec fn view(&self) -> DispatchActionV {
        match self {
            DispatchAction::Emit(t) => DispatchActionV::Emit(t@),
            DispatchAction::RunBody { channel, handler } => DispatchActionV::RunBody {
                channel: *channel as int,
                handler: *handler as int,
            },
        }
    }
}

pub open spec fn actions_view(s: Seq<DispatchAction>) -> Seq<DispatchActionV> {
    s.map_values(|a: DispatchAction| a@)
}

/// The action for handler `h` of channel definition `c`, whose target is
/// `target`: events without a target, or aimed at `ingest`, go to the `ingest`
/// handler when the program has one and run the channel handler's body
/// otherwise; events aimed at `update` go to `ingest` too (its conflict rules
/// do the update); any other target names the handler that receives them.
pub open spec fn handler_action(
    target: Option<Seq<char>>,
    has_ingest: bool,
    c: int,
    h: int,
) -> DispatchActionV {
    match target {
        Some(t) => if t == "update"@ {
            DispatchActionV::Emit("ingest"@)
        } else if t != "ingest"@ {
            DispatchActionV::Emit(t)
        } else if has_ingest {
            DispatchActionV::Emit("ingest"@)
        } else {
            DispatchActionV::RunBody { channel: c, handler: h }
        },
        None => if has_ingest {
            DispatchActionV::Emit("ingest"@)
        } else {
            DispatchActionV::RunBody { channel: c, handler: h }
        },
    }
}

/// The actions for the first `n` handlers of channel definition `ch` (number
/// `c`) on an event named `event`, in order.
pub open spec fn handler_actions(
    ch: ChannelDefV,
    c: int,
    event: Seq<char>,
    has_ingest: bool,
    n: int,
) -> Seq<DispatchActionV>
    decreases n,
{
    if n <= 0 {
        Seq::empty()
    } else {
        let prev = handler_actions(ch, c, event, has_ingest, n - 1);
        if ch.events[n - 1].event == event {
            prev.push(handler_action(ch.events[n - 1].target, has_ingest, c, n - 1))
        } else {
            prev
        }
    }
}

/// The actions for an event named `event` from channel `name`, over the first
/// `n` channel definitions: every handler of every definition with that name
/// that handles that event, in the order written.
pub open spec fn dispatch_plan(
    chs: Seq<ChannelDefV>,
    name: Seq<char>,
    event: Seq<char>,
    has_ingest: bool,
    n: int,
) -> Seq<DispatchActionV>
    decreases n,
{
    if n <= 0 {
        Seq::empty()
    } else {
        let prev = dispatch_plan(chs, name, event, has_ingest, n - 1);
        if chs[n - 1].name == name {
            prev + handler_actions(chs[n - 1], n - 1, event, has_ingest, chs[n - 1].events.len() as int)
        } else {
            prev
        }
    }
}

/// An event from a channel that no definition names leads to no action.
pub proof fn lemma_unnamed_channel_dispatches_nothing(
    chs: Seq<ChannelDefV>,
    name: Seq<char>,
    event: Seq<char>,
    has_ingest: bool,
    n: int,
)
    requires
        n <= chs.len(),
        forall|k: int| 0 <= k < chs.len() ==> (#[trigger] chs[k]).name != name,
    ensures
        dispatch_plan(chs, name, event, has_ingest, n) == Seq::<DispatchActionV>::empty(),
    decreases n,
{
    if n > 0 {
        lemma_unnamed_channel_dispatches_nothing(chs, name, event, has_ingest, n - 1);
        assert(chs[n - 1].name != name);
    }
}

proof fn lemma_handlers_emit_with_ingest(ch: ChannelDefV, c: int, event: Seq<char>, n: int)
    ensures
        forall|k: int|
            0 <= k < handler_actions(ch, c, event, true, n).len() ==> (#[trigger] handler_actions(
                ch,
                c,
                event,
                true,
                n,
            )[k]) is Emit,
    decreases n,
{
    if n > 0 {
        lemma_handlers_emit_with_ingest(ch, c, event, n - 1);
    }
}

/// When the program handles `ingest`, every matching handler hands its event
/// to a program handler: no channel handler's body runs on its own.
pub proof fn lemma_ingest_handler_takes_every_event(
    chs: Seq<ChannelDefV>,
    name: Seq<char>,
    event: Seq<char>,
    n: int,
)
    requires
        n <= chs.len(),
    ensures
        forall|k: int|
            0 <= k < dispatch_plan(chs, name, event, true, n).len() ==> (#[trigger] dispatch_plan(
                chs,
                name,
                event,
                true,
                n,
            )[k]) is Emit,
    decreases n,
{
    if n > 0 {
        lemma_ingest_handler_takes_every_event(chs, name, event, n - 1);
        let prev = dispatch_plan(chs, name, event, true, n - 1);
        if chs[n - 1].name == name {
            let more = handler_actions(chs[n - 1], n - 1, event, true, chs[n - 1].events.len() as int);
            lemma_handlers_emit_with_ingest(chs[n - 1], n - 1, event, chs[n - 1].events.len() as int);
            assert forall|k: int| 0 <= k < (prev + more).len() implies (#[trigger] (prev + more)[k]) is Emit by {
                if k >= prev.len() {
                    assert((prev + more)[k] == more[k - prev.len()]);
                } else {
                    assert((prev + more)[k] == prev[k]);
                }
            }
        }
    }
}

fn action_for(target: &Option<String>, has_ingest: bool, c: usize, h: usize) -> (r: DispatchAction)
    ensures
        r@ == handler_action(opt_str_view(*target), has_ingest, c as int, h as int),
{
    let to_ingest = match target {
        Some(t) => {
            if text_eq(t.as_str(), "update") {
                return DispatchAction::Emit(String::from_str("ingest"));
            }
            if !text_eq(t.as_str(), "ingest") {
                return DispatchAction::Emit(t.clone());
            }
            true
        },
        None => true,
    };
    if to_ingest && has_ingest {
        DispatchAction::Emit(String::from_str("ingest"))
    } else {
        DispatchAction::RunBody { channel: c, handler: h }
    }
}

/// What to do with an event of kind `event` from channel `channel_name`:
/// one action per handler that matches it, in the order the handlers are
/// written. `has_ingest_handler` says whether the program handles `ingest`.
pub fn dispatch_actions(
    channels: &Vec<ChannelDef>,
    channel_name: &str,
    event: &ChannelEventType,
    has_ingest_handler: bool,
) -> (r: Vec<DispatchAction>)
    ensures
        actions_view(r@) == dispatch_plan(
            channel_defs_view(channels@),
            channel_name@,
            event_name(*event),
            has_ingest_handler,
            channels@.len() as int,
        ),
{
    let ghost chs = channel_defs_view(channels@);
    let ghost ev = event_name(*event);
    let event_text = event.as_str();
    let mut out: Vec<DispatchAction> = Vec::new();
    let mut c: usize = 0;
    assert(actions_view(out@) =~= Seq::<DispatchActionV>::empty());
    while c < channels.len()
        invariant
            c <= channels.len(),
            chs == channel_defs_view(channels@),
            ev == event_name(*event),
            event_text@ == ev,
            actions_view(out@) == dispatch_plan(chs, channel_name@, ev, has_ingest_handler, c as int),
        decreases channels.len() - c,
    {
        let ch = &channels[c];
        let ghost chv = chs[c as int];
        assert(chv == channel_view(*ch));
        let ghost base = actions_view(out@);
        if text_eq(ch.name.as_str(), channel_name) {
            let mut h: usize = 0;
            assert(base + handler_actions(chv, c as int, ev, has_ingest_handler, 0) =~= base);
            while h < ch.events.len()
                invariant
                    h <= ch.events.len(),
                    chv == channel_view(*ch),
                    event_text@ == ev,
                    actions_view(out@) == base + handler_actions(
                        chv,
                        c as int,
                        ev,
                        has_ingest_handler,
                        h as int,
                    ),
                decreases ch.events.len() - h,
            {
                let handler = &ch.events[h];
                assert(chv.events[h as int].event == handler.event@);
                assert(chv.events[h as int].target == opt_str_view(handler.target));
                if text_eq(handler.event.as_str(), event_text) {
                    let a = action_for(&handler.target, has_ingest_handler, c, h);
                    let ghost prev = actions_view(out@);
                    out.push(a);
                    assert(actions_view(out@) =~= prev.push(a@));
                }
                h = h + 1;
            }
        }
        c = c + 1;
    }
    out
}

/// A value of an event's payload: text, or a JSON value written as text.
#[derive(Debug, Clone, PartialEq, Eq)]
pub enum PayloadValue {
    Text(String),
    Json(String),
}

pub enum PayloadValueV {
    Text(Seq<char>),
    Json(Seq<char>),
}

impl View for PayloadValue {
    type V = PayloadValueV;

    open spec fn view(&self) -> PayloadValueV {
        match self {
            PayloadValue::Text(t) => PayloadValueV::Text(t@),
            PayloadValue::Json(j) => PayloadValueV::Json(j@),
        }
    }
}

pub open spec fn opt_field(name: Seq<char>, v: Option<String>) -> Seq<(Seq<char>, PayloadValueV)> {
    match v {
        Some(x) => seq![(name, PayloadValueV::Text(x@))],
        None => Seq::empty(),
    }
}

/// The payload that handlers receive for event `e`, as name/value pairs in
/// the order they are set (a later pair shadows an earlier one): the content,
/// the author and message id where the event has them, the source, the time,
/// then the event's further fields.
pub open spec fn payload_pairs(e: ChannelEvent) -> Seq<(Seq<char>, PayloadValueV)> {
    seq![("content"@, PayloadValueV::Text(e.content@))] + opt_field("author"@, e.author)
        + opt_field("message_id"@, e.message_id) + seq![
        ("source"@, PayloadValueV::Text(e.source@)),
        ("timestamp"@, PayloadValueV::Text(e.timestamp@)),
    ] + e.metadata@.map_values(|kv: (String, String)| (kv.0@, PayloadValueV::Json(kv.1@)))
}

fn push_text(out: &mut Vec<(String, PayloadValue)>, name: &str, v: &String)
    ensures
        keyed(final(out)@) == keyed(old(out)@).push((name@, PayloadValueV::Text(v@))),
{
    let ghost before = out@;
    out.push((String::from_str(name), PayloadValue::Text(v.clone())));
    assert(keyed(out@) =~= keyed(before).push((name@, PayloadValueV::Text(v@))));
}

/// The payload of an event (see [`payload_pairs`]).
pub fn event_payload(e: &ChannelEvent) -> (r: Vec<(String, PayloadValue)>)
    ensures
        keyed(r@) == payload_pairs(*e),
{
    let mut out: Vec<(String, PayloadValue)> = Vec::new();
    assert(keyed(out@) =~= Seq::<(Seq<char>, PayloadValueV)>::empty());
    push_text(&mut out, "content", &e.content);
    let ghost p1 = keyed(out@);
    match &e.author {
        Some(a) => push_text(&mut out, "author", a),
        None => {},
    }
    assert(keyed(out@) =~= p1 + opt_field("author"@, e.author));
    let ghost p2 = keyed(out@);
    match &e.message_id {
        Some(m) => push_text(&mut out, "message_id", m),
        None => {},
    }
    assert(keyed(out@) =~= p2 + opt_field("message_id"@, e.message_id));
    push_text(&mut out, "source", &e.source);
    push_text(&mut out, "timestamp", &e.timestamp);
    let ghost fixed = keyed(out@);
    let ghost meta = e.metadata@.map_values(
        |kv: (String, String)| (kv.0@, PayloadValueV::Json(kv.1@)),
    );
    let mut i: usize = 0;
    assert(fixed + meta.take(0) =~= fixed);
    while i < e.metadata.len()
        invariant
            i <= e.metadata.len(),
            meta == e.metadata@.map_values(
                |kv: (String, String)| (kv.0@, PayloadValueV::Json(kv.1@)),
            ),
            keyed(out@) == fixed + meta.take(i as int),
        decreases e.metadata.len() - i,
    {
        let ghost before = out@;
        let kv = &e.metadata[i];
        out.push((kv.0.clone(), PayloadValue::Json(kv.1.clone())));
        assert(keyed(out@) =~= keyed(before).push(meta[i as int]));
        assert(meta.take(i + 1) =~= meta.take(i as int).push(meta[i as int]));
        i = i + 1;
    }
    assert(meta.take(i as int) =~= meta);
    out
}

/// The values that the first `n` parameters take from a payload: each
/// parameter the payload names gets the payload's value, in order; the others
/// are left unbound.
pub open spec fn bindings(
    params: Seq<ParamV>,
    payload: Map<Seq<char>, PayloadValueV>,
    n: int,
) -> Seq<(Seq<char>, PayloadValueV)>
    decreases n,
{
    if n <= 0 {
        Seq::empty()
    } else {
        bindings(params, payload, n - 1) + if payload.contains_key(params[n - 1].name) {
            seq![(params[n - 1].name, payload[params[n - 1].name])]
        } else {
            Seq::empty()
        }
    }
}

fn copy_payload(v: &PayloadValue) -> (r: PayloadValue)
    ensures
        r@ == v@,
{
    match v {
        PayloadValue::Text(t) => PayloadValue::Text(t.clone()),
        PayloadValue::Json(j) => PayloadValue::Json(j.clone()),
    }
}

/// The parameters of a handler that a payload binds, with their values (see
/// [`bindings`]).
pub fn handler_bindings(params: &Vec<Param>, payload: &Vec<(String, PayloadValue)>) -> (r: Vec<
    (String, PayloadValue),
>)
    ensures
        keyed(r@) == bindings(params_view(params@), map_of(payload@), params@.len() as int),
{
    let ghost pv = params_view(params@);
    let ghost pm = map_of(payload@);
    let mut out: Vec<(String, PayloadValue)> = Vec::new();
    let mut i: usize = 0;
    assert(keyed(out@) =~= Seq::<(Seq<char>, PayloadValueV)>::empty());
    while i < params.len()
        invariant
            i <= params.len(),
            pv == params_view(params@),
            pm == map_of(payload@),
            keyed(out@) == bindings(pv, pm, i as int),
        decreases params.len() - i,
    {
        let name = &params[i].name;
        assert(pv[i as int].name == name@);
        let ghost before = keyed(out@);
        match find_key(payload, name.as_str()) {
            Some(k) => {
                let x = (name.clone(), copy_payload(&payload[k].1));
                assert(x.1@ == payload@[k as int].1@);
                out.push(x);
                assert(keyed(out@) =~= before.push((name@, pm[name@])));
            },
            None => {},
        }
        assert(keyed(out@) =~= bindings(pv, pm, i + 1));
        i = i + 1;
    }
    out
}

} // verus!
