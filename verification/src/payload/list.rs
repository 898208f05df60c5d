//! A list of texts written as one text, its items separated by `, `.

use crate::text::chars_of;
use vstd::prelude::*;
use vstd::string::{StrSliceExecFns, StringExecFns};

verus! {

/// A comma and a blank stand at `at`.
pub open spec fn separator_at(chars: Seq<char>, at: int) -> bool {
    0 <= at && at + 1 < chars.len() && chars[at] == ',' && chars[at + 1] == ' '
}

/// Nowhere in the text does a blank follow a comma.
pub open spec fn separator_free(chars: Seq<char>) -> bool {
    forall|at: int| !separator_at(chars, at)
}

/// How many characters stand before the first separator; all of them if
/// there is none.
pub open spec fn first_separator(chars: Seq<char>) -> nat
    decreases chars.len(),
{
    if chars.len() < 2 {
        chars.len()
    } else if chars[0] == ',' && chars[1] == ' ' {
        0
    } else {
        1 + first_separator(chars.drop_first())
    }
}

/// The items of a list text: the stretches between its separators, found
/// from the left. A text without a separator is one item, the empty text too.
pub open spec fn split_list(chars: Seq<char>) -> Seq<Seq<char>>
    decreases chars.len(),
{
    let cut = first_separator(chars);
    if cut + 2 <= chars.len() {
        seq![chars.take(cut as int)] + split_list(chars.skip(cut as int + 2))
    } else {
        seq![chars]
    }
}

/// The list text of some items: the items with `, ` between neighbours.
pub open spec fn join_list(items: Seq<Seq<char>>) -> Seq<char>
    decreases items.len(),
{
    if items.len() == 0 {
        Seq::empty()
    } else if items.len() == 1 {
        items[0]
    } else {
        items[0] + seq![',', ' '] + join_list(items.drop_first())
    }
}

/// Where the first separator stands, and that none stands before it.
pub proof fn lemma_first_separator(chars: Seq<char>)
    ensures
        first_separator(chars) <= chars.len(),
        first_separator(chars) < chars.len() ==> separator_at(
            chars,
            first_separator(chars) as int,
        ),
        forall|at: int| 0 <= at < first_separator(chars) ==> !separator_at(chars, at),
        separator_free(chars) <==> first_separator(chars) == chars.len(),
    decreases chars.len(),
{
    if chars.len() >= 2 && !(chars[0] == ',' && chars[1] == ' ') {
        let rest = chars.drop_first();
        lemma_first_separator(rest);
        assert forall|at: int| 0 <= at < first_separator(chars) implies !separator_at(
            chars,
            at,
        ) by {
            if at > 0 {
                assert(!separator_at(rest, at - 1));
            }
        }
        if first_separator(chars) < chars.len() {
            assert(separator_at(rest, first_separator(rest) as int));
            assert(separator_at(chars, first_separator(chars) as int));
        }
    } else if chars.len() >= 2 {
        assert(separator_at(chars, 0));
    }
}

/// An item without a separator, followed by a separator, is found whole.
pub proof fn lemma_first_separator_of_item(item: Seq<char>, rest: Seq<char>)
    requires
        separator_free(item),
    ensures
        first_separator(item + seq![',', ' '] + rest) == item.len(),
    decreases item.len(),
{
    let all = item + seq![',', ' '] + rest;
    if item.len() > 0 {
        let shorter = item.drop_first();
        assert(!separator_at(item, 0));
        assert(all[0] == item[0]);
        if item.len() >= 2 {
            assert(all[1] == item[1]);
        } else {
            assert(all[1] == ',');
        }
        assert forall|at: int| !separator_at(shorter, at) by {
            assert(!separator_at(item, at + 1));
        }
        lemma_first_separator_of_item(shorter, rest);
        assert(all.drop_first() =~= shorter + seq![',', ' '] + rest);
    } else {
        assert(all[0] == ',' && all[1] == ' ');
    }
}

/// Items without separators, at least one of them, come back from their
/// list text as they were.
pub proof fn lemma_list_round_trip(items: Seq<Seq<char>>)
    requires
        items.len() >= 1,
        forall|i: int| 0 <= i < items.len() ==> separator_free(#[trigger] items[i]),
    ensures
        split_list(join_list(items)) == items,
    decreases items.len(),
{
    if items.len() == 1 {
        assert(separator_free(items[0]));
        lemma_first_separator(items[0]);
        assert(split_list(items[0]) =~= items);
    } else {
        let tail = items.drop_first();
        assert forall|i: int| 0 <= i < tail.len() implies separator_free(#[trigger] tail[i]) by {
            assert(separator_free(items[i + 1]));
        }
        lemma_list_round_trip(tail);
        let text = join_list(items);
        assert(separator_free(items[0]));
        lemma_first_separator_of_item(items[0], join_list(tail));
        assert(text.take(items[0].len() as int) =~= items[0]);
        assert(text.skip(items[0].len() as int + 2) =~= join_list(tail));
        assert(seq![items[0]] + tail =~= items);
    }
}

/// The views of some strings.
pub open spec fn text_views(items: Seq<String>) -> Seq<Seq<char>> {
    Seq::new(items.len(), |i: int| items[i]@)
}

/// Writes the items as one list text.
pub fn join_strings(items: &Vec<String>) -> (out: String)
    ensures
        out@ == join_list(text_views(items@)),
{
    let mut out = String::new();
    let ghost all = text_views(items@);
    let mut i: usize = items.len();
    if i == 0 {
        return out;
    }
    while i > 0
        invariant
            i <= items.len(),
            items.len() > 0,
            all == text_views(items@),
            out@ == join_list(all.skip(i as int)),
        decreases i,
    {
        i -= 1;
        let ghost now = all.skip(i as int);
        assert(now.drop_first() =~= all.skip(i + 1));
        assert(now[0] == items[i as int]@);
        let mut joined = items[i].clone();
        if i + 1 < items.len() {
            joined.append(", ");
            joined.append(out.as_str());
            proof {
                reveal_strlit(", ");
                assert(", "@ =~= seq![',', ' ']);
            }
        } else {
            assert(now.len() == 1);
        }
        out = joined;
    }
    assert(all.skip(0) =~= all);
    out
}

/// Reads the items of a list text.
pub fn split_string(text: &str) -> (out: Vec<String>)
    ensures
        text_views(out@) == split_list(text@),
{
    let chars = chars_of(text);
    let mut out: Vec<String> = Vec::new();
    let mut start: usize = 0;
    let mut at: usize = 0;
    assert(text@.skip(0) =~= text@);
    assert(text_views(out@) =~= Seq::<Seq<char>>::empty());
    loop
        invariant_except_break
            start <= at <= chars.len(),
            chars@ == text@,
            text_views(out@) + split_list(text@.skip(start as int)) == split_list(text@),
            at - start + first_separator(text@.skip(at as int)) == first_separator(
                text@.skip(start as int),
            ),
        ensures
            text_views(out@) == split_list(text@),
        decreases chars.len() - at,
    {
        let ghost item = text@.skip(start as int);
        let ghost here = text@.skip(at as int);
        let ghost before = text_views(out@);
        if chars.len() - at < 2 {
            let last = text.substring_char(start, chars.len()).to_owned();
            proof {
                assert(first_separator(here) == here.len());
                assert(text@.subrange(start as int, chars.len() as int) =~= item);
            }
            out.push(last);
            proof {
                assert(text_views(out@) =~= before.push(item));
                assert(before.push(item) =~= before + split_list(item));
            }
            break ;
        }
        proof {
            assert(here[0] == chars@[at as int]);
            assert(here[1] == chars@[at + 1]);
            assert(here.drop_first() =~= text@.skip(at + 1));
        }
        if chars[at] == ',' && chars[at + 1] == ' ' {
            let piece = text.substring_char(start, at).to_owned();
            proof {
                assert(first_separator(item) == at - start);
                assert(text@.subrange(start as int, at as int) =~= item.take(at - start));
                assert(item.skip(at - start + 2) =~= text@.skip(at + 2));
            }
            out.push(piece);
            proof {
                assert(text_views(out@) =~= before.push(item.take(at - start)));
                assert(before.push(item.take(at - start)) + split_list(text@.skip(at + 2))
                    =~= before + split_list(item));
            }
            at = at + 2;
            start = at;
        } else {
            at = at + 1;
        }
    }
    out
}

} // verus!
