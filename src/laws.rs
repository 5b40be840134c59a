//! Laws relating the operations, stated over the list model.

use vstd::prelude::*;

use crate::model::{
    added_from, all_occur, entry, file_text, kept, lemma_description_occurs, lines_of, listing,
    marked, pieces, renamed,
};
use crate::record::{
    description, encode, is_done, lemma_encode_decode, strike_on, style_reset, well_formed_line,
};
use crate::text::{decimal, is_blank, occurs_in};

verus! {

/// Every line opens with one of the two markers.
pub open spec fn all_well_formed(ls: Seq<Seq<char>>) -> bool {
    forall|i: int| 0 <= i < ls.len() ==> well_formed_line(#[trigger] ls[i])
}

/// A description that `add` accepts: not blank, and not yet in the file text.
pub open spec fn fresh(ls: Seq<Seq<char>>, d: Seq<char>) -> bool {
    !is_blank(d) && !occurs_in(file_text(ls), d)
}

proof fn lemma_no_line_named(ls: Seq<Seq<char>>, d: Seq<char>, k: int)
    requires
        all_well_formed(ls),
        !occurs_in(file_text(ls), d),
        0 <= k < ls.len(),
    ensures
        description(ls[k]) != d,
{
    lemma_description_occurs(ls, k);
}

proof fn lemma_added_one(ls: Seq<Seq<char>>, d: Seq<char>)
    requires
        fresh(ls, d),
    ensures
        added_from(ls, seq![d], 0) == (ls.push(encode(false, d)), None::<int>),
{
    let ns = seq![d];
    assert(ns[0] == d);
    assert(added_from(ls, ns, 0) == added_from(ls.push(encode(false, d)), ns, 1));
}

proof fn lemma_kept_all(ls: Seq<Seq<char>>, ns: Seq<Seq<char>>)
    requires
        forall|k: int| 0 <= k < ls.len() ==> !ns.contains(description(#[trigger] ls[k])),
    ensures
        kept(ls, ns) == ls,
    decreases ls.len(),
{
    if ls.len() > 0 {
        lemma_kept_all(ls.drop_last(), ns);
        assert(ls.drop_last().push(ls.last()) =~= ls);
    }
}

proof fn lemma_listing_push(ls: Seq<Seq<char>>, l: Seq<char>)
    ensures
        listing(ls.push(l)) == listing(ls) + entry(ls.len() + 1, l),
{
    assert(ls.push(l).drop_last() =~= ls);
}

proof fn lemma_complete_fresh(ls: Seq<Seq<char>>, d: Seq<char>)
    requires
        all_well_formed(ls),
        fresh(ls, d),
    ensures
        marked(ls.push(encode(false, d)), seq![d], true) == ls.push(encode(true, d)),
{
    let a = ls.push(encode(false, d));
    let ns = seq![d];
    lemma_encode_decode(false, d);
    assert(ns[0] == d);
    assert forall|k: int| 0 <= k < a.len() implies marked(a, ns, true)[k] == ls.push(
        encode(true, d),
    )[k] by {
        if k < ls.len() {
            lemma_no_line_named(ls, d, k);
            assert(a[k] == ls[k]);
            assert(!ns.contains(description(a[k])));
        } else {
            assert(ns.contains(description(a[k])));
        }
    }
    assert(marked(a, ns, true) =~= ls.push(encode(true, d)));
}

proof fn lemma_rename_fresh(ls: Seq<Seq<char>>, d: Seq<char>, d2: Seq<char>)
    requires
        all_well_formed(ls),
        fresh(ls, d),
    ensures
        renamed(ls.push(encode(false, d)), d, d2) == ls.push(encode(false, d2)),
{
    let a = ls.push(encode(false, d));
    lemma_encode_decode(false, d);
    assert forall|k: int| 0 <= k < a.len() implies renamed(a, d, d2)[k] == ls.push(
        encode(false, d2),
    )[k] by {
        if k < ls.len() {
            lemma_no_line_named(ls, d, k);
            assert(a[k] == ls[k]);
        }
    }
    assert(renamed(a, d, d2) =~= ls.push(encode(false, d2)));
}

proof fn lemma_added_occurs(ls: Seq<Seq<char>>, d: Seq<char>)
    ensures
        all_occur(file_text(ls.push(encode(false, d))), seq![d]),
{
    let a = ls.push(encode(false, d));
    let ns = seq![d];
    lemma_encode_decode(false, d);
    lemma_description_occurs(a, ls.len() as int);
    assert forall|i: int| 0 <= i < ns.len() implies occurs_in(file_text(a), #[trigger] ns[i]) by {
        assert(ns[i] == d);
    }
}

proof fn lemma_struck_row(ls: Seq<Seq<char>>, d: Seq<char>)
    ensures
        listing(ls.push(encode(true, d))) == listing(ls) + decimal(ls.len() + 1) + seq![' ']
            + strike_on() + d + style_reset() + seq!['\n'],
{
    let l = encode(true, d);
    lemma_encode_decode(true, d);
    lemma_listing_push(ls, l);
    assert(listing(ls) + entry(ls.len() + 1, l) =~= listing(ls) + decimal(ls.len() + 1) + seq![
        ' ',
    ] + strike_on() + d + style_reset() + seq!['\n']);
}

/// Adding a fresh description appends it as an open task: the listing gains
/// one row that shows it plainly.
pub proof fn law_add_lists_open(ls: Seq<Seq<char>>, d: Seq<char>)
    requires
        all_well_formed(ls),
        fresh(ls, d),
    ensures
        added_from(ls, seq![d], 0).0 == ls.push(encode(false, d)),
        !is_done(added_from(ls, seq![d], 0).0.last()),
        listing(added_from(ls, seq![d], 0).0) == listing(ls) + decimal(ls.len() + 1) + seq![' ']
            + d + seq!['\n'],
{
    lemma_added_one(ls, d);
    lemma_encode_decode(false, d);
    let a = ls.push(encode(false, d));
    assert(a.drop_last() =~= ls);
}

/// Completing a description just added succeeds and turns its row into
/// struck-through text, leaving the other lines as they were.
pub proof fn law_complete_after_add(ls: Seq<Seq<char>>, d: Seq<char>)
    requires
        all_well_formed(ls),
        fresh(ls, d),
    ensures
        all_occur(file_text(ls.push(encode(false, d))), seq![d]),
        marked(ls.push(encode(false, d)), seq![d], true) == ls.push(encode(true, d)),
        listing(marked(ls.push(encode(false, d)), seq![d], true)) == listing(ls) + decimal(
            ls.len() + 1,
        ) + seq![' '] + strike_on() + d + style_reset() + seq!['\n'],
{
    lemma_added_occurs(ls, d);
    lemma_complete_fresh(ls, d);
    lemma_struck_row(ls, d);
}

/// Marking open again what was just completed succeeds, and every line with
/// that description is then open and listed plainly; other lines keep their
/// state.
pub proof fn law_uncomplete_after_complete(ls: Seq<Seq<char>>, d: Seq<char>)
    requires
        all_well_formed(ls),
        all_occur(file_text(ls), seq![d]),
    ensures
        all_occur(file_text(marked(ls, seq![d], true)), seq![d]),
        marked(marked(ls, seq![d], true), seq![d], false).len() == ls.len(),
        forall|k: int|
            0 <= k < ls.len() && description(ls[k]) == d ==> {
                let l = #[trigger] marked(marked(ls, seq![d], true), seq![d], false)[k];
                &&& !is_done(l)
                &&& entry((k + 1) as nat, l) == decimal((k + 1) as nat) + seq![' '] + d + seq!['\n']
            },
        forall|k: int|
            0 <= k < ls.len() && description(ls[k]) != d ==> #[trigger] marked(
                marked(ls, seq![d], true),
                seq![d],
                false,
            )[k] == ls[k],
{
    let ns = seq![d];
    let c = marked(ls, ns, true);
    assert(ns[0] == d);
    assert forall|x: Seq<char>| ns.contains(x) <==> x == d by {
        if x == d {
            assert(ns[0] == x);
        }
    }
    if exists|k: int| 0 <= k < ls.len() && description(ls[k]) == d {
        let k = choose|k: int| 0 <= k < ls.len() && description(ls[k]) == d;
        lemma_encode_decode(true, d);
        assert(c[k] == encode(true, d));
        lemma_description_occurs(c, k);
    } else {
        assert(c =~= ls);
    }
    assert(all_occur(file_text(c), ns));
    lemma_encode_decode(false, d);
    lemma_encode_decode(true, d);
}

/// Deleting a description just added removes exactly that line: the list and
/// its listing are as before the addition.
pub proof fn law_delete_after_add(ls: Seq<Seq<char>>, d: Seq<char>)
    requires
        all_well_formed(ls),
        fresh(ls, d),
    ensures
        kept(ls.push(encode(false, d)), seq![d]) == ls,
        kept(ls.push(encode(false, d)), seq![d]).len() == ls.push(encode(false, d)).len() - 1,
        listing(kept(ls.push(encode(false, d)), seq![d])) == listing(ls),
        forall|k: int|
            0 <= k < ls.len() ==> description(
                #[trigger] kept(ls.push(encode(false, d)), seq![d])[k],
            ) != d,
{
    let a = ls.push(encode(false, d));
    let ns = seq![d];
    lemma_encode_decode(false, d);
    assert(ns[0] == d);
    assert(a.drop_last() =~= ls);
    assert(ns.contains(description(a.last())));
    assert forall|k: int| 0 <= k < ls.len() implies !ns.contains(description(#[trigger] ls[k])) by {
        lemma_no_line_named(ls, d, k);
        if ns.contains(description(ls[k])) {
            assert(ns[0] == description(ls[k]));
        }
    }
    lemma_kept_all(ls, ns);
    assert forall|k: int| 0 <= k < ls.len() implies description(#[trigger] kept(a, ns)[k]) != d by {
        lemma_no_line_named(ls, d, k);
    }
}

/// Renaming keeps each renamed line's completion flag.
pub proof fn law_update_keeps_flag(
    ls: Seq<Seq<char>>,
    target: Seq<char>,
    replacement: Seq<char>,
    k: int,
)
    requires
        all_well_formed(ls),
        0 <= k < ls.len(),
        description(ls[k]) == target,
    ensures
        is_done(renamed(ls, target, replacement)[k]) == is_done(ls[k]),
        description(renamed(ls, target, replacement)[k]) == replacement,
{
    lemma_encode_decode(is_done(ls[k]), replacement);
}

/// Renaming a description just added succeeds, and the listing then shows
/// the new description, still open, in its place.
pub proof fn law_update_after_add(ls: Seq<Seq<char>>, d: Seq<char>, d2: Seq<char>)
    requires
        all_well_formed(ls),
        fresh(ls, d),
    ensures
        occurs_in(file_text(ls.push(encode(false, d))), d),
        renamed(ls.push(encode(false, d)), d, d2) == ls.push(encode(false, d2)),
        listing(renamed(ls.push(encode(false, d)), d, d2)) == listing(ls) + decimal(ls.len() + 1)
            + seq![' '] + d2 + seq!['\n'],
{
    let a = ls.push(encode(false, d));
    lemma_encode_decode(false, d);
    lemma_encode_decode(false, d2);
    lemma_description_occurs(a, ls.len() as int);
    lemma_rename_fresh(ls, d, d2);
    lemma_listing_push(ls, encode(false, d2));
}

/// After clearing, whatever the list held, the listing is empty.
pub proof fn law_clear_lists_nothing(ls: Seq<Seq<char>>)
    ensures
        listing(Seq::<Seq<char>>::empty()) == Seq::<char>::empty(),
{
}

proof fn lemma_pieces_nonempty(t: Seq<char>)
    ensures
        pieces(t).len() >= 1,
    decreases t.len(),
{
    if t.len() > 0 {
        lemma_pieces_nonempty(t.drop_last());
    }
}

proof fn lemma_pieces_extend(t: Seq<char>, s: Seq<char>)
    requires
        !s.contains('\n'),
    ensures
        pieces(t + s) == pieces(t).update(pieces(t).len() - 1, pieces(t).last() + s),
    decreases s.len(),
{
    lemma_pieces_nonempty(t);
    if s.len() == 0 {
        assert(t + s =~= t);
        assert(pieces(t).update(pieces(t).len() - 1, pieces(t).last() + s) =~~= pieces(t));
    } else {
        let s0 = s.drop_last();
        assert(!s0.contains('\n')) by {
            if s0.contains('\n') {
                let i = choose|i: int| 0 <= i < s0.len() && s0[i] == '\n';
                assert(s[i] == '\n');
            }
        }
        assert(s.last() != '\n') by {
            assert(s[s.len() - 1] == s.last());
        }
        lemma_pieces_extend(t, s0);
        assert((t + s).drop_last() =~= t + s0);
        assert(pieces(t + s) =~~= pieces(t).update(pieces(t).len() - 1, pieces(t).last() + s));
    }
}

proof fn lemma_pieces_of_text(ls: Seq<Seq<char>>)
    requires
        forall|i: int| 0 <= i < ls.len() ==> !(#[trigger] ls[i]).contains('\n'),
    ensures
        pieces(file_text(ls)) == ls.push(seq![]),
    decreases ls.len(),
{
    if ls.len() == 0 {
        assert(pieces(file_text(ls)) =~~= ls.push(seq![]));
    } else {
        let rest = ls.drop_last();
        lemma_pieces_of_text(rest);
        let x = file_text(rest) + ls.last();
        assert(!ls[ls.len() - 1].contains('\n'));
        lemma_pieces_extend(file_text(rest), ls.last());
        assert(pieces(x) =~~= ls);
        assert((x + seq!['\n']).drop_last() =~= x);
        assert(pieces(file_text(ls)) =~~= ls.push(seq![]));
    }
}

/// Reading back the file text of a list gives the same list, as long as no
/// line holds a newline of its own.
pub proof fn law_text_round_trip(ls: Seq<Seq<char>>)
    requires
        forall|i: int| 0 <= i < ls.len() ==> !(#[trigger] ls[i]).contains('\n'),
    ensures
        lines_of(file_text(ls)) == ls,
{
    lemma_pieces_of_text(ls);
    assert(ls.push(seq![]).drop_last() =~= ls);
}

} // verus!
