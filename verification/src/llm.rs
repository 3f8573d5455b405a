//! What the runtime asks a language model, and cleaning up what it answers.
use vstd::prelude::*;
use crate::stdtext::{ends_with, ends_with_text, starts_with, starts_with_text, trim, trimmed};
use crate::text::{join, join_texts, texts_view};

verus! {

/// The text inside a fence whose opening has been removed: without the
/// closing fence when there is one, trimmed.
pub open spec fn fence_body(rest: Seq<char>) -> Seq<char> {
    trimmed(
        if ends_with(rest, "```"@) {
            rest.take(rest.len() - 3)
        } else {
            rest
        },
    )
}

/// A trimmed answer, with a Markdown code fence (plain or `json`) around it removed.
pub open spec fn without_fences(s: Seq<char>) -> Seq<char> {
    let t = trimmed(s);
    if starts_with(t, "```json"@) {
        fence_body(t.skip(7))
    } else if starts_with(t, "```"@) {
        fence_body(t.skip(3))
    } else {
        t
    }
}

/// Removes the Markdown code fences that a model may put around JSON (see [`without_fences`]).
pub fn strip_code_fences(s: &str) -> (r: &str)
    ensures
        r@ == without_fences(s@),
{
    proof {
        reveal_strlit("```json");
        reveal_strlit("```");
    }
    let t = trim(s);
    let n = t.unicode_len();
    let rest = if starts_with_text(t, "```json") {
        t.substring_char(7, n)
    } else if starts_with_text(t, "```") {
        t.substring_char(3, n)
    } else {
        return t;
    };
    let m = rest.unicode_len();
    let body = if ends_with_text(rest, "```") {
        rest.substring_char(0, m - 3)
    } else {
        rest
    };
    trim(body)
}

/// The line that describes parameter `name` of type `ty` and its argument
/// written as `arg` (`null` when the call gave none).
pub open spec fn arg_line(name: Seq<char>, ty: Seq<char>, arg: Option<Seq<char>>) -> Seq<char> {
    "  "@ + name + ": "@ + ty + " = "@ + match arg {
        Some(a) => a,
        None => "null"@,
    }
}

/// The prompt that asks a model to act as extern function `name`: its
/// signature, each argument on a line of its own, and how to answer.
/// `params` are the parameters' names and types, `args` the arguments given,
/// each written as text.
pub open spec fn extern_prompt_text(
    name: Seq<char>,
    params: Seq<(Seq<char>, Seq<char>)>,
    return_type: Seq<char>,
    args: Seq<Seq<char>>,
) -> Seq<char> {
    "You are simulating a function call.\nFunction: "@ + name + "("@ + join(
        params.map_values(|p: (Seq<char>, Seq<char>)| p.0 + ": "@ + p.1),
        ", "@,
    ) + ") -> "@ + return_type + "\nArguments:\n"@ + join(
        Seq::new(
            params.len(),
            |i: int|
                arg_line(
                    params[i].0,
                    params[i].1,
                    if i < args.len() {
                        Some(args[i])
                    } else {
                        None
                    },
                ),
        ),
        "\n"@,
    )
        + "\n\nReturn the result as valid JSON. For arrays, return a JSON array. For objects, return a JSON object. For strings, return a JSON string. Respond with ONLY the JSON value."@
}

pub open spec fn pairs_text(v: Seq<(String, String)>) -> Seq<(Seq<char>, Seq<char>)> {
    v.map_values(|p: (String, String)| (p.0@, p.1@))
}

/// The prompt for a call of an extern function (see [`extern_prompt_text`]).
pub fn extern_prompt(
    name: &str,
    params: &Vec<(String, String)>,
    return_type: &str,
    args: &Vec<String>,
) -> (r: String)
    ensures
        r@ == extern_prompt_text(name@, pairs_text(params@), return_type@, texts_view(args@)),
{
    let ghost pv = pairs_text(params@);
    let ghost av = texts_view(args@);
    let ghost sig = pv.map_values(|p: (Seq<char>, Seq<char>)| p.0 + ": "@ + p.1);
    let ghost lines = Seq::new(
        pv.len(),
        |i: int|
            arg_line(
                pv[i].0,
                pv[i].1,
                if i < av.len() {
                    Some(av[i])
                } else {
                    None
                },
            ),
    );
    let mut sigs: Vec<String> = Vec::new();
    let mut descs: Vec<String> = Vec::new();
    let mut i: usize = 0;
    while i < params.len()
        invariant
            i <= params.len(),
            pv == pairs_text(params@),
            av == texts_view(args@),
            sig == pv.map_values(|p: (Seq<char>, Seq<char>)| p.0 + ": "@ + p.1),
            lines.len() == pv.len(),
            forall|k: int|
                0 <= k < pv.len() ==> #[trigger] lines[k] == arg_line(
                    pv[k].0,
                    pv[k].1,
                    if k < av.len() {
                        Some(av[k])
                    } else {
                        None
                    },
                ),
            texts_view(sigs@) == sig.take(i as int),
            texts_view(descs@) == lines.take(i as int),
        decreases params.len() - i,
    {
        let (n, t) = (&params[i].0, &params[i].1);
        assert(pv[i as int] == (n@, t@));
        let mut s1 = n.clone();
        s1.append(": ");
        s1.append(t.as_str());
        let mut d = String::from_str("  ");
        d.append(n.as_str());
        d.append(": ");
        d.append(t.as_str());
        d.append(" = ");
        if i < args.len() {
            d.append(args[i].as_str());
            assert(av[i as int] == args@[i as int]@);
        } else {
            d.append("null");
        }
        let ghost s0 = texts_view(sigs@);
        let ghost d0 = texts_view(descs@);
        let ghost sv = s1@;
        let ghost dv = d@;
        assert(sig[i as int] == sv);
        assert(lines[i as int] == dv);
        sigs.push(s1);
        descs.push(d);
        assert(texts_view(sigs@) =~= s0.push(sv));
        assert(texts_view(descs@) =~= d0.push(dv));
        assert(sig.take(i + 1) =~= sig.take(i as int).push(sv));
        assert(lines.take(i + 1) =~= lines.take(i as int).push(dv));
        i = i + 1;
    }
    assert(sig.take(i as int) =~= sig);
    assert(lines.take(i as int) =~= lines);
    let mut p = String::from_str("You are simulating a function call.\nFunction: ");
    p.append(name);
    p.append("(");
    let sj = join_texts(&sigs, ", ");
    p.append(sj.as_str());
    p.append(") -> ");
    p.append(return_type);
    p.append("\nArguments:\n");
    let dj = join_texts(&descs, "\n");
    p.append(dj.as_str());
    p.append(
        "\n\nReturn the result as valid JSON. For arrays, return a JSON array. For objects, return a JSON object. For strings, return a JSON string. Respond with ONLY the JSON value.",
    );
    p
}

} // verus!
