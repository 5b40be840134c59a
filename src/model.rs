//! The task list as a sequence of lines, and what each operation makes of it.

use vstd::prelude::*;

use crate::record::{description, encode, is_done, shown};
use crate::text::{decimal, is_blank, occurs_in};

verus! {

/// The file text of a list: every line followed by a newline.
pub open spec fn file_text(ls: Seq<Seq<char>>) -> Seq<char>
    decreases ls.len(),
{
    if ls.len() == 0 {
        seq![]
    } else {
        file_text(ls.drop_last()) + ls.last() + seq!['\n']
    }
}

/// The pieces of a text between its newlines (one more than there are newlines).
pub open spec fn pieces(t: Seq<char>) -> Seq<Seq<char>>
    decreases t.len(),
{
    if t.len() == 0 {
        seq![seq![]]
    } else {
        let p = pieces(t.drop_last());
        if t.last() == '\n' {
            p.push(seq![])
        } else {
            p.update(p.len() - 1, p.last().push(t.last()))
        }
    }
}

/// The lines of a text: its pieces, without the empty one after a final newline.
pub open spec fn lines_of(t: Seq<char>) -> Seq<Seq<char>> {
    let p = pieces(t);
    if p.last().len() == 0 {
        p.drop_last()
    } else {
        p
    }
}

/// The descriptions that an operation is given.
pub open spec fn names(args: Seq<String>) -> Seq<Seq<char>> {
    args.map_values(|a: String| a@)
}

/// Every name occurs somewhere in the text.
pub open spec fn all_occur(t: Seq<char>, ns: Seq<Seq<char>>) -> bool {
    forall|i: int| 0 <= i < ns.len() ==> occurs_in(t, #[trigger] ns[i])
}

/// Each line whose description is named gets the given flag; the others stay.
pub open spec fn marked(ls: Seq<Seq<char>>, ns: Seq<Seq<char>>, completed: bool) -> Seq<
    Seq<char>,
> {
    ls.map_values(
        |l: Seq<char>|
            if ns.contains(description(l)) {
                encode(completed, description(l))
            } else {
                l
            },
    )
}

/// How many lines are named but not completed.
pub open spec fn idle_named(ls: Seq<Seq<char>>, ns: Seq<Seq<char>>) -> nat
    decreases ls.len(),
{
    if ls.len() == 0 {
        0
    } else {
        idle_named(ls.drop_last(), ns) + if ns.contains(description(ls.last())) && !is_done(
            ls.last(),
        ) {
            1nat
        } else {
            0nat
        }
    }
}

/// The lines whose description is not named, in their order.
pub open spec fn kept(ls: Seq<Seq<char>>, ns: Seq<Seq<char>>) -> Seq<Seq<char>>
    decreases ls.len(),
{
    if ls.len() == 0 {
        seq![]
    } else {
        let rest = kept(ls.drop_last(), ns);
        if ns.contains(description(ls.last())) {
            rest
        } else {
            rest.push(ls.last())
        }
    }
}

/// Each line whose description is `target` gets `replacement` and keeps its flag.
pub open spec fn renamed(ls: Seq<Seq<char>>, target: Seq<char>, replacement: Seq<char>) -> Seq<
    Seq<char>,
> {
    ls.map_values(
        |l: Seq<char>|
            if description(l) == target {
                encode(is_done(l), replacement)
            } else {
                l
            },
    )
}

/// Adding the names from position `i` on: each that is not blank is appended as
/// an open task, until one that already occurs in the file text stops it. The
/// second component is the position of that one.
pub open spec fn added_from(ls: Seq<Seq<char>>, ns: Seq<Seq<char>>, i: int) -> (
    Seq<Seq<char>>,
    Option<int>,
)
    decreases ns.len() - i,
{
    if i < 0 || i >= ns.len() {
        (ls, None)
    } else if occurs_in(file_text(ls), ns[i]) {
        (ls, Some(i))
    } else if is_blank(ns[i]) {
        added_from(ls, ns, i + 1)
    } else {
        added_from(ls.push(encode(false, ns[i])), ns, i + 1)
    }
}

/// One row of the listing: the 1-based number, a space, the description as
/// shown, and a newline.
pub open spec fn entry(n: nat, l: Seq<char>) -> Seq<char> {
    decimal(n) + seq![' '] + shown(is_done(l), description(l)) + seq!['\n']
}

/// The listing of a list: one row per line, numbered from 1.
pub open spec fn listing(ls: Seq<Seq<char>>) -> Seq<char>
    decreases ls.len(),
{
    if ls.len() == 0 {
        seq![]
    } else {
        listing(ls.drop_last()) + entry(ls.len(), ls.last())
    }
}

pub proof fn lemma_occurs_within(a: Seq<char>, b: Seq<char>, c: Seq<char>, p: Seq<char>)
    requires
        occurs_in(b, p),
    ensures
        occurs_in(a + b + c, p),
{
    let i = choose|i: int| 0 <= i <= b.len() - p.len() && #[trigger] b.subrange(i, i + p.len()) == p;
    let t = a + b + c;
    let j = a.len() + i;
    assert(t.subrange(j, j + p.len()) =~= b.subrange(i, i + p.len()));
}

/// The description of every line occurs in the file text.
pub proof fn lemma_description_occurs(ls: Seq<Seq<char>>, k: int)
    requires
        0 <= k < ls.len(),
        ls[k].len() >= 4,
    ensures
        occurs_in(file_text(ls), description(ls[k])),
    decreases ls.len(),
{
    let l = ls[k];
    let d = description(l);
    if k == ls.len() - 1 {
        assert(l.subrange(4, 4 + d.len() as int) =~= d);
        assert(occurs_in(l, d));
        lemma_occurs_within(file_text(ls.drop_last()), l, seq!['\n'], d);
    } else {
        assert(ls.drop_last()[k] == l);
        lemma_description_occurs(ls.drop_last(), k);
        lemma_occurs_within(seq![], file_text(ls.drop_last()), ls.last() + seq!['\n'], d);
        assert(seq![] + file_text(ls.drop_last()) + (ls.last() + seq!['\n']) =~= file_text(ls));
    }
}

} // verus!
