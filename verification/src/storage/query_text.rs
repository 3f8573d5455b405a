//! The parts that the backends' query languages share: a filter keyword with
//! conditions joined by `AND` (alternatives in parentheses, joined by `OR`),
//! an ordering, and a limit.
use vstd::prelude::*;
use crate::text::{join, join_texts, nat_text, push_u64_text, texts_view};

verus! {

/// The pieces of a filter: the conditions joined by `AND`, then the
/// alternatives joined by `OR` in parentheses, each where there are any.
pub open spec fn filter_pieces(ands: Seq<Seq<char>>, ors: Seq<Seq<char>>) -> Seq<Seq<char>> {
    (if ands.len() > 0 {
        seq![join(ands, " AND "@)]
    } else {
        Seq::empty()
    }) + (if ors.len() > 0 {
        seq!["("@ + join(ors, " OR "@) + ")"@]
    } else {
        Seq::empty()
    })
}

/// ` KEYWORD pieces` with the pieces joined by `AND`, or nothing without any.
pub open spec fn filter_text(keyword: Seq<char>, ands: Seq<Seq<char>>, ors: Seq<Seq<char>>) -> Seq<
    char,
> {
    let pieces = filter_pieces(ands, ors);
    if pieces.len() == 0 {
        Seq::empty()
    } else {
        " "@ + keyword + " "@ + join(pieces, " AND "@)
    }
}

/// ` KEYWORD prefix+field ASC|DESC` for an ordering, or nothing.
pub open spec fn order_text(
    keyword: Seq<char>,
    prefix: Seq<char>,
    order_by: Option<(Seq<char>, bool)>,
) -> Seq<char> {
    match order_by {
        Some((f, asc)) => " "@ + keyword + " "@ + prefix + f + if asc {
            " ASC"@
        } else {
            " DESC"@
        },
        None => Seq::empty(),
    }
}

/// ` LIMIT n` for a limit, or nothing.
pub open spec fn limit_text(limit: Option<usize>) -> Seq<char> {
    match limit {
        Some(n) => " LIMIT "@ + nat_text(n as nat),
        None => Seq::empty(),
    }
}

pub open spec fn order_view(o: Option<(String, bool)>) -> Option<(Seq<char>, bool)> {
    match o {
        Some((f, asc)) => Some((f@, asc)),
        None => None,
    }
}

/// Appends [`filter_text`].
pub fn push_filter(out: &mut String, keyword: &str, ands: &Vec<String>, ors: &Vec<String>)
    ensures
        final(out)@ == old(out)@ + filter_text(keyword@, texts_view(ands@), texts_view(ors@)),
{
    let mut pieces: Vec<String> = Vec::new();
    if ands.len() > 0 {
        pieces.push(join_texts(ands, " AND "));
    }
    if ors.len() > 0 {
        let mut alt = String::from_str("(");
        let inner = join_texts(ors, " OR ");
        alt.append(inner.as_str());
        alt.append(")");
        pieces.push(alt);
    }
    assert(texts_view(pieces@) =~= filter_pieces(texts_view(ands@), texts_view(ors@)));
    if pieces.len() > 0 {
        let ghost before = out@;
        out.append(" ");
        out.append(keyword);
        out.append(" ");
        let joined = join_texts(&pieces, " AND ");
        out.append(joined.as_str());
        assert(out@ =~= before + filter_text(keyword@, texts_view(ands@), texts_view(ors@)));
    } else {
        assert(out@ =~= old(out)@ + filter_text(keyword@, texts_view(ands@), texts_view(ors@)));
    }
}

/// Appends [`order_text`].
pub fn push_order(out: &mut String, keyword: &str, prefix: &str, order_by: &Option<(String, bool)>)
    ensures
        final(out)@ == old(out)@ + order_text(keyword@, prefix@, order_view(*order_by)),
{
    match order_by {
        Some((f, asc)) => {
            let ghost before = out@;
            out.append(" ");
            out.append(keyword);
            out.append(" ");
            out.append(prefix);
            out.append(f.as_str());
            if *asc {
                out.append(" ASC");
            } else {
                out.append(" DESC");
            }
            assert(out@ =~= before + order_text(keyword@, prefix@, order_view(*order_by)));
        },
        None => {
            assert(out@ =~= old(out)@ + order_text(keyword@, prefix@, order_view(*order_by)));
        },
    }
}

/// Appends [`limit_text`].
pub fn push_limit(out: &mut String, limit: Option<usize>)
    ensures
        final(out)@ == old(out)@ + limit_text(limit),
{
    match limit {
        Some(n) => {
            let ghost before = out@;
            out.append(" LIMIT ");
            push_u64_text(out, n as u64);
            assert(out@ =~= before + limit_text(limit));
        },
        None => {
            assert(out@ =~= old(out)@ + limit_text(limit));
        },
    }
}

} // verus!
