//! The template mini-grammar: a comma-separated list of `key:value`
//! parts, of which `type` names the visualization and `columns` lists the
//! column names separated by `|`. A repeated key resolves to its last
//! occurrence.
use vstd::prelude::*;
use crate::text::str_eq;
use vstd::pervasive::unreached;

verus! {

/// A parsed template.
pub struct Template {
    pub visualization_type: String,
    pub columns: Vec<String>,
}

/// Index of the first `c` in `s`, or `s.len()` if there is none.
pub open spec fn first_at(s: Seq<char>, c: char) -> int
    decreases s.len(),
{
    if s.len() == 0 {
        0
    } else if s[0] == c {
        0
    } else {
        1 + first_at(s.drop_first(), c)
    }
}

proof fn lemma_first_at(s: Seq<char>, c: char, j: int)
    requires
        0 <= j <= s.len(),
        forall|k: int| 0 <= k < j ==> s[k] != c,
        j == s.len() || s[j] == c,
    ensures
        first_at(s, c) == j,
    decreases j,
{
    if j == 0 {
        if s.len() > 0 && s[0] != c {
            assert(false);
        }
    } else {
        let t = s.drop_first();
        assert(forall|k: int| 0 <= k < j - 1 ==> t[k] != c);
        lemma_first_at(t, c, j - 1);
    }
}

/// `s` cut at every `sep`: the list of segments, in order, separators
/// dropped, empty segments kept.
pub open spec fn split_spec(s: Seq<char>, sep: char) -> Seq<Seq<char>>
    decreases s.len(),
{
    let d = first_at(s, sep);
    if 0 <= d < s.len() {
        seq![s.subrange(0, d)] + split_spec(s.subrange(d + 1, s.len() as int), sep)
    } else {
        seq![s]
    }
}

/// A list of strings as the contracts see it.
pub open spec fn strings_view(v: Seq<String>) -> Seq<Seq<char>> {
    v.map_values(|t: String| t@)
}

/// Cuts `s` at every `sep`.
pub fn split_str(s: &str, sep: char) -> (r: Vec<String>)
    ensures
        strings_view(r@) == split_spec(s@, sep),
{
    let n = s.unicode_len();
    let mut out: Vec<String> = Vec::new();
    let mut start: usize = 0;
    let mut i: usize = 0;
    proof {
        assert(s@.subrange(0, n as int) =~= s@);
        assert(strings_view(out@) + split_spec(s@, sep) =~= split_spec(s@, sep));
    }
    while i < n
        invariant
            0 <= start <= i <= n,
            n == s@.len(),
            forall|k: int| start <= k < i ==> s@[k] != sep,
            split_spec(s@, sep) == strings_view(out@) + split_spec(
                s@.subrange(start as int, n as int),
                sep,
            ),
        decreases n - i,
    {
        if s.get_char(i) == sep {
            let piece = s.substring_char(start, i).to_owned();
            proof {
                let t = s@.subrange(start as int, n as int);
                assert(forall|k: int| 0 <= k < i - start ==> t[k] != sep);
                assert(t[i - start] == sep);
                lemma_first_at(t, sep, i - start);
                assert(t.subrange(0, i - start) =~= s@.subrange(start as int, i as int));
                assert(t.subrange(i - start + 1, t.len() as int) =~= s@.subrange(
                    i + 1,
                    n as int,
                ));
                assert(strings_view(out@.push(piece)) =~= strings_view(out@) + seq![piece@]);
                assert(strings_view(out@) + seq![t.subrange(0, i - start)] + split_spec(
                    s@.subrange(i + 1, n as int),
                    sep,
                ) =~= strings_view(out@) + (seq![t.subrange(0, i - start)] + split_spec(
                    s@.subrange(i + 1, n as int),
                    sep,
                )));
            }
            out.push(piece);
            start = i + 1;
        }
        i = i + 1;
    }
    let piece = s.substring_char(start, n).to_owned();
    proof {
        let t = s@.subrange(start as int, n as int);
        assert(forall|k: int| 0 <= k < t.len() ==> t[k] != sep);
        lemma_first_at(t, sep, t.len() as int);
        assert(strings_view(out@.push(piece)) =~= strings_view(out@) + seq![t]);
    }
    out.push(piece);
    out
}

/// The key of one part: everything before its first colon.
pub open spec fn part_key(p: Seq<char>) -> Seq<char> {
    p.subrange(0, first_at(p, ':'))
}

/// The value of one part: between its first and second colons, or from
/// the first colon to the end when there is no second one.
pub open spec fn part_value(p: Seq<char>) -> Seq<char> {
    let rest = p.subrange(first_at(p, ':') + 1, p.len() as int);
    rest.subrange(0, first_at(rest, ':'))
}

/// One part carries a colon, so it has a key and a value.
pub open spec fn part_has_colon(p: Seq<char>) -> bool {
    first_at(p, ':') < p.len()
}

/// Some part's key is `key`.
pub open spec fn has_key(parts: Seq<Seq<char>>, key: Seq<char>) -> bool {
    exists|j: int| 0 <= j < parts.len() && part_key(#[trigger] parts[j]) == key
}

/// What `parse_template` requires of its input: every comma-part holds a
/// colon, and both a `type` and a `columns` part are present.
pub open spec fn template_wf(s: Seq<char>) -> bool {
    let parts = split_spec(s, ',');
    &&& forall|j: int| 0 <= j < parts.len() ==> part_has_colon(#[trigger] parts[j])
    &&& has_key(parts, "type"@)
    &&& has_key(parts, "columns"@)
}

/// The value of the last part keyed `key`.
pub open spec fn keyed_value(parts: Seq<Seq<char>>, key: Seq<char>) -> Seq<char>
    decreases parts.len(),
{
    if parts.len() == 0 {
        Seq::empty()
    } else if part_key(parts.last()) == key {
        part_value(parts.last())
    } else {
        keyed_value(parts.drop_last(), key)
    }
}

/// Reads the colon-split key and value of one part.
fn split_part(p: &String) -> (r: (String, String))
    requires
        part_has_colon(p@),
    ensures
        r.0@ == part_key(p@),
        r.1@ == part_value(p@),
{
    let pn = p.as_str().unicode_len();
    let mut j: usize = 0;
    while j < pn && p.as_str().get_char(j) != ':'
        invariant
            0 <= j <= pn,
            pn == p@.len(),
            forall|k: int| 0 <= k < j ==> p@[k] != ':',
        decreases pn - j,
    {
        j = j + 1;
    }
    proof {
        lemma_first_at(p@, ':', j as int);
    }
    let key = p.as_str().substring_char(0, j).to_owned();
    let mut j2: usize = j + 1;
    while j2 < pn && p.as_str().get_char(j2) != ':'
        invariant
            j + 1 <= j2 <= pn,
            pn == p@.len(),
            forall|k: int| j + 1 <= k < j2 ==> p@[k] != ':',
        decreases pn - j2,
    {
        j2 = j2 + 1;
    }
    let value = p.as_str().substring_char(j + 1, j2).to_owned();
    proof {
        let rest = p@.subrange(j + 1, pn as int);
        assert(forall|k: int| 0 <= k < j2 - j - 1 ==> rest[k] != ':');
        lemma_first_at(rest, ':', j2 - j - 1);
        assert(rest.subrange(0, j2 - j - 1) =~= p@.subrange(j + 1, j2 as int));
    }
    (key, value)
}

/// Parses a template such as `type:table,columns:name|age`: the
/// visualization type is the last `type` value, the column list the last
/// `columns` value cut at every `|`.
pub fn parse_template(template_str: &str) -> (t: Template)
    requires
        template_wf(template_str@),
    ensures
        t.visualization_type@ == keyed_value(split_spec(template_str@, ','), "type"@),
        strings_view(t.columns@) == split_spec(
            keyed_value(split_spec(template_str@, ','), "columns"@),
            '|',
        ),
{
    let ghost pv = split_spec(template_str@, ',');
    let parts = split_str(template_str, ',');
    let mut ty: Option<String> = None;
    let mut cols: Option<String> = None;
    let mut i: usize = 0;
    let n = parts.len();
    proof {
        assert(pv.subrange(0, 0) =~= Seq::<Seq<char>>::empty());
    }
    while i < n
        invariant
            0 <= i <= n,
            n == parts@.len(),
            strings_view(parts@) == pv,
            pv == split_spec(template_str@, ','),
            template_wf(template_str@),
            match ty {
                Some(v) => has_key(pv.subrange(0, i as int), "type"@) && v@ == keyed_value(
                    pv.subrange(0, i as int),
                    "type"@,
                ),
                None => !has_key(pv.subrange(0, i as int), "type"@),
            },
            match cols {
                Some(v) => has_key(pv.subrange(0, i as int), "columns"@) && v@ == keyed_value(
                    pv.subrange(0, i as int),
                    "columns"@,
                ),
                None => !has_key(pv.subrange(0, i as int), "columns"@),
            },
        decreases n - i,
    {
        proof {
            assert(pv[i as int] == parts@[i as int]@);
            assert(pv.subrange(0, i + 1).drop_last() =~= pv.subrange(0, i as int));
            assert(pv.subrange(0, i + 1).last() == pv[i as int]);
            reveal_strlit("type");
            reveal_strlit("columns");
            assert("type"@.len() != "columns"@.len());
        }
        let (key, value) = split_part(&parts[i]);
        if str_eq(key.as_str(), "type") {
            ty = Some(value);
        } else if str_eq(key.as_str(), "columns") {
            cols = Some(value);
        }
        i = i + 1;
    }
    proof {
        assert(pv.subrange(0, n as int) =~= pv);
    }
    let visualization_type = match ty {
        Some(v) => v,
        None => unreached(),
    };
    let cols_text = match cols {
        Some(v) => v,
        None => unreached(),
    };
    let columns = split_str(cols_text.as_str(), '|');
    Template { visualization_type, columns }
}

} // verus!
