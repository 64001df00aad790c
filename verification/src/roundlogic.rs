//! Which playlists a rotation draws from.

use vstd::prelude::*;

use crate::text;

verus! {

/// The parts that are not blank, trimmed.
pub open spec fn trimmed_parts(parts: Seq<Seq<char>>) -> Seq<Seq<char>>
    decreases parts.len(),
{
    if parts.len() == 0 {
        Seq::empty()
    } else {
        let before = trimmed_parts(parts.drop_last());
        let part = text::trimmed(parts.last());
        if part.len() == 0 {
            before
        } else {
            before.push(part)
        }
    }
}

/// The playlists that a comma-separated list names, or the default ones where it
/// names none.
pub open spec fn playlists_of(raw: Seq<char>, default: Seq<Seq<char>>) -> Seq<Seq<char>> {
    let named = trimmed_parts(text::split(raw, ','));
    if named.len() == 0 {
        default
    } else {
        named
    }
}

/// Reads a comma-separated list of playlists. Blanks around a name and empty
/// names are dropped; a list that names nothing gives the default.
pub fn parse_playlists(raw: &str, default: &[&str]) -> (r: Vec<String>)
    ensures
        r.deep_view() == playlists_of(raw@, default.deep_view()),
{
    let parts = text::split_text(raw, ',');
    let ghost pv = parts.deep_view();
    let mut out: Vec<String> = Vec::new();
    let mut i: usize = 0;
    assert(out.deep_view() =~= trimmed_parts(pv.take(0)));
    while i < parts.len()
        invariant
            i <= parts@.len(),
            pv == parts.deep_view(),
            out.deep_view() == trimmed_parts(pv.take(i as int)),
        decreases parts.len() - i,
    {
        let part = text::trim_text(parts[i].as_str());
        proof {
            assert(pv[i as int] == parts@[i as int]@);
            assert(pv.take(i + 1).drop_last() =~= pv.take(i as int));
            assert(pv.take(i + 1).last() == pv[i as int]);
        }
        if !part.as_str().is_empty() {
            let ghost before = out.deep_view();
            out.push(part);
            assert(out.deep_view() =~= before.push(part@));
        }
        i = i + 1;
    }
    assert(pv.take(i as int) =~= pv);
    if out.len() == 0 {
        let mut k: usize = 0;
        while k < default.len()
            invariant
                k <= default@.len(),
                out.deep_view() =~= default.deep_view().take(k as int),
            decreases default.len() - k,
        {
            let ghost before = out.deep_view();
            out.push(default[k].to_owned());
            assert(out.deep_view() =~= before.push(default.deep_view()[k as int]));
            k = k + 1;
        }
        assert(default.deep_view().take(k as int) =~= default.deep_view());
    }
    out
}

/// A list that names playlists gives no blank name, and none with blanks around
/// it.
pub proof fn law_no_blank_playlists(raw: Seq<char>, i: int)
    requires
        0 <= i < trimmed_parts(text::split(raw, ',')).len(),
    ensures
        trimmed_parts(text::split(raw, ','))[i].len() > 0,
        !text::is_white(trimmed_parts(text::split(raw, ','))[i][0]),
        !text::is_white(trimmed_parts(text::split(raw, ','))[i].last()),
{
    lemma_parts_not_blank(text::split(raw, ','), i);
}

proof fn lemma_parts_not_blank(parts: Seq<Seq<char>>, i: int)
    requires
        0 <= i < trimmed_parts(parts).len(),
    ensures
        trimmed_parts(parts)[i].len() > 0,
        !text::is_white(trimmed_parts(parts)[i][0]),
        !text::is_white(trimmed_parts(parts)[i].last()),
    decreases parts.len(),
{
    if parts.len() > 0 {
        let front = parts.drop_last();
        text::lemma_trimmed(parts.last());
        if i < trimmed_parts(front).len() {
            lemma_parts_not_blank(front, i);
        }
    }
}

} // verus!
