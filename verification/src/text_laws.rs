//! What cutting texts does.
use crate::text::{
    ascii_lower, ascii_upper, drop_while, lowered, skip_while, trimmed_text, white_space,
};
use vstd::prelude::*;

verus! {

/// Whether a predicate holds of every character of a text.
pub open spec fn all_of(text: Seq<char>, p: spec_fn(char) -> bool) -> bool {
    forall|i: int| 0 <= i < text.len() ==> p(#[trigger] text[i])
}

/// Skipping takes the leading characters that the predicate holds of, all of them and no more.
pub proof fn skipping_takes_the_lead(lead: Seq<char>, rest: Seq<char>, p: spec_fn(char) -> bool)
    requires
        all_of(lead, p),
        rest.len() > 0 ==> !p(rest[0]),
    ensures
        skip_while(lead + rest, p) == rest,
    decreases lead.len(),
{
    let text = lead + rest;
    if lead.len() > 0 {
        assert(p(lead[0]));
        assert(text.drop_first() =~= lead.drop_first() + rest);
        assert forall|i: int| 0 <= i < lead.drop_first().len() implies p(
            #[trigger] lead.drop_first()[i],
        ) by {
            assert(lead.drop_first()[i] == lead[i + 1]);
        }
        skipping_takes_the_lead(lead.drop_first(), rest, p);
    } else {
        assert(text =~= rest);
    }
}

/// Dropping takes the trailing characters that the predicate holds of, all of them and no more.
pub proof fn dropping_takes_the_end(rest: Seq<char>, end: Seq<char>, p: spec_fn(char) -> bool)
    requires
        all_of(end, p),
        rest.len() > 0 ==> !p(rest.last()),
    ensures
        drop_while(rest + end, p) == rest,
    decreases end.len(),
{
    let text = rest + end;
    if end.len() > 0 {
        assert(p(end[end.len() - 1]));
        assert(text.last() == end.last());
        assert(text.drop_last() =~= rest + end.drop_last());
        assert forall|i: int| 0 <= i < end.drop_last().len() implies p(
            #[trigger] end.drop_last()[i],
        ) by {
            assert(end.drop_last()[i] == end[i]);
        }
        dropping_takes_the_end(rest, end.drop_last(), p);
    } else {
        assert(text =~= rest);
    }
}

/// A text trimmed is the text without the white space around it.
pub proof fn trimming_takes_white_space(lead: Seq<char>, text: Seq<char>, end: Seq<char>)
    requires
        all_of(lead, |c: char| white_space(c)),
        all_of(end, |c: char| white_space(c)),
        text.len() > 0,
        !white_space(text[0]),
        !white_space(text.last()),
    ensures
        trimmed_text(lead + text + end) == text,
{
    let p = |c: char| white_space(c);
    assert(lead + text + end =~= lead + (text + end));
    assert((text + end)[0] == text[0]);
    skipping_takes_the_lead(lead, text + end, p);
    dropping_takes_the_end(text, end, p);
}

/// A text of white space alone is trimmed to nothing.
pub proof fn white_space_is_trimmed_away(text: Seq<char>)
    requires
        all_of(text, |c: char| white_space(c)),
    ensures
        trimmed_text(text).len() == 0,
{
    let p = |c: char| white_space(c);
    assert(text + Seq::<char>::empty() =~= text);
    skipping_takes_the_lead(text, Seq::empty(), p);
}

/// The blank, the tab and the line ends are white space; letters, digits and signs are not.
pub proof fn what_white_space_is(c: char)
    ensures
        white_space(' ') && white_space('\t') && white_space('\n') && white_space('\r'),
        '!' <= c <= '~' ==> !white_space(c),
{
}

/// Putting a text in lower case twice is putting it in lower case once; it keeps the length and
/// every character that is no capital, and it undoes upper case.
pub proof fn lower_case_is_settled(text: Seq<char>)
    ensures
        lowered(text).len() == text.len(),
        lowered(lowered(text)) == lowered(text),
        forall|i: int|
            0 <= i < text.len() && !('A' <= text[i] <= 'Z') ==> #[trigger] lowered(text)[i] == text[i],
        forall|i: int| 0 <= i < text.len() ==> !('A' <= #[trigger] lowered(text)[i] <= 'Z'),
        forall|i: int|
            0 <= i < text.len() && 'a' <= text[i] <= 'z' ==> ascii_lower(
                ascii_upper(#[trigger] text[i]),
            ) == text[i],
{
    assert(lowered(lowered(text)) =~= lowered(text));
}

} // verus!
