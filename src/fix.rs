//! A toy key/value protocol: fields written `tag=value|tag=value|...`, with
//! no escaping of `|` or `=`.
use vstd::prelude::*;
use crate::parser::{first_index, is_first};

verus! {

/// The fields as mathematical values.
pub open spec fn fields_view(v: Seq<(String, String)>) -> Seq<(Seq<char>, Seq<char>)> {
    v.map_values(|f: (String, String)| (f.0@, f.1@))
}

/// `fields` with `tag` set to `value`: in place when the tag is present,
/// else appended.
pub open spec fn upsert(fields: Seq<(Seq<char>, Seq<char>)>, tag: Seq<char>, value: Seq<char>) -> Seq<
    (Seq<char>, Seq<char>),
> {
    if exists|i: int| 0 <= i < fields.len() && fields[i].0 == tag {
        fields.update(choose|i: int| 0 <= i < fields.len() && fields[i].0 == tag, (tag, value))
    } else {
        fields.push((tag, value))
    }
}

/// No tag appears twice.
pub open spec fn tags_distinct(fields: Seq<(Seq<char>, Seq<char>)>) -> bool {
    forall|i: int, j: int|
        0 <= i < fields.len() && 0 <= j < fields.len() && #[trigger] fields[i].0 == #[trigger] fields[j].0
            ==> i == j
}

/// The fields after reading one part: one holding `=` sets the tag before
/// its first `=` to the text after it; any other part is skipped.
pub open spec fn read_part(fields: Seq<(Seq<char>, Seq<char>)>, part: Seq<char>) -> Seq<
    (Seq<char>, Seq<char>),
> {
    let e = first_index(part, '=');
    if e < 0 {
        fields
    } else {
        upsert(fields, part.subrange(0, e), part.subrange(e + 1, part.len() as int))
    }
}

/// The fields after reading the `|`-separated parts of `s` in order.
pub open spec fn read_parts(fields: Seq<(Seq<char>, Seq<char>)>, s: Seq<char>) -> Seq<
    (Seq<char>, Seq<char>),
>
    decreases s.len(),
{
    let k = first_index(s, '|');
    if k < 0 {
        read_part(fields, s)
    } else {
        read_parts(read_part(fields, s.subrange(0, k)), s.subrange(k + 1, s.len() as int))
    }
}

/// The text of the fields, each written `tag=value|`.
pub open spec fn fix_text(fields: Seq<(Seq<char>, Seq<char>)>) -> Seq<char>
    decreases fields.len(),
{
    if fields.len() == 0 {
        Seq::empty()
    } else {
        fix_text(fields.drop_last()) + fields.last().0 + seq!['='] + fields.last().1 + seq!['|']
    }
}

proof fn lemma_first_in_range(s: Seq<char>, c: char, from: int, to: int, k: int)
    requires
        0 <= from <= to <= s.len(),
        from <= k < to,
        s[k] == c,
        forall|j: int| from <= j < k ==> s[j] != c,
    ensures
        first_index(s.subrange(from, to), c) == k - from,
{
    let t = s.subrange(from, to);
    assert(is_first(t, c, k - from));
    let m = choose|m: int| is_first(t, c, m);
    if m < k - from {
        assert(t[m] == s[from + m]);
    } else if m > k - from {
        assert(t[k - from] == c);
    }
}

proof fn lemma_absent_in_range(s: Seq<char>, c: char, from: int, to: int)
    requires
        0 <= from <= to <= s.len(),
        forall|j: int| from <= j < to ==> s[j] != c,
    ensures
        first_index(s.subrange(from, to), c) == -1,
{
    let t = s.subrange(from, to);
    if exists|i: int| is_first(t, c, i) {
        let i = choose|i: int| is_first(t, c, i);
        assert(t[i] == s[from + i]);
    }
}

/// First position of `c` in `s[from..to]`, or `to`.
pub(crate) fn scan_for(s: &str, c: char, from: usize, to: usize) -> (r: usize)
    requires
        from <= to <= s@.len(),
    ensures
        from <= r <= to,
        forall|j: int| from <= j < r ==> s@[j] != c,
        r < to ==> s@[r as int] == c,
{
    let mut i = from;
    while i < to && s.get_char(i) != c
        invariant
            from <= i <= to <= s@.len(),
            forall|j: int| from <= j < i ==> s@[j] != c,
        decreases to - i,
    {
        i = i + 1;
    }
    i
}

fn set_field(fields: &mut Vec<(String, String)>, tag: String, value: String)
    requires
        tags_distinct(fields_view(old(fields)@)),
    ensures
        tags_distinct(fields_view(final(fields)@)),
        fields_view(final(fields)@) == upsert(fields_view(old(fields)@), tag@, value@),
{
    let ghost before = fields_view(fields@);
    let mut i: usize = 0;
    while i < fields.len()
        invariant
            i <= fields@.len(),
            fields_view(fields@) == before,
            before == fields_view(old(fields)@),
            tags_distinct(before),
            forall|k: int| 0 <= k < i ==> before[k].0 != tag@,
        decreases fields@.len() - i,
    {
        let same = fields[i].0 == tag;
        assert(before[i as int] == (fields@[i as int].0@, fields@[i as int].1@));
        if same {
            proof {
                assert(before[i as int].0 == tag@);
                let c = choose|k: int| 0 <= k < before.len() && before[k].0 == tag@;
                assert(c == i);
            }
            let ghost t = tag@;
            let ghost v = value@;
            fields.set(i, (tag, value));
            proof {
                assert(exists|k: int| 0 <= k < before.len() && before[k].0 == t);
                assert(upsert(before, t, v) == before.update(i as int, (t, v)));
                assert(fields_view(fields@) =~= before.update(i as int, (t, v)));
                let after = fields_view(fields@);
                assert forall|x: int, y: int|
                    0 <= x < after.len() && 0 <= y < after.len() && #[trigger] after[x].0
                        == #[trigger] after[y].0 implies x == y by {
                    if x != i && y != i {
                        assert(before[x].0 == before[y].0);
                    } else if x == i && y != i {
                        assert(before[y].0 == t);
                    } else if y == i && x != i {
                        assert(before[x].0 == t);
                    }
                }
            }
            return;
        }
        i = i + 1;
    }
    let ghost t = tag@;
    let ghost v = value@;
    fields.push((tag, value));
    proof {
        assert(fields_view(fields@) =~= before.push((t, v)));
        let after = fields_view(fields@);
        assert forall|x: int, y: int|
            0 <= x < after.len() && 0 <= y < after.len() && #[trigger] after[x].0 == #[trigger] after[y].0
                implies x == y by {
            if x < before.len() && y < before.len() {
                assert(before[x].0 == before[y].0);
            }
        }
    }
}

/// Reads the fields of a `tag=value|...` message in order. A later field
/// with the same tag replaces the value of the earlier one; parts without
/// `=` are skipped.
pub fn parse_fix_message(message: &str) -> (r: Vec<(String, String)>)
    ensures
        fields_view(r@) == read_parts(Seq::empty(), message@),
        tags_distinct(fields_view(r@)),
{
    let n = message.unicode_len();
    let mut fields: Vec<(String, String)> = Vec::new();
    let mut start: usize = 0;
    proof {
        assert(message@.subrange(0, n as int) =~= message@);
        assert(fields_view(fields@) =~= Seq::<(Seq<char>, Seq<char>)>::empty());
    }
    loop
        invariant
            n == message@.len(),
            start <= n,
            tags_distinct(fields_view(fields@)),
            read_parts(fields_view(fields@), message@.subrange(start as int, n as int)) == read_parts(
                Seq::empty(),
                message@,
            ),
        decreases n - start,
    {
        let end = scan_for(message, '|', start, n);
        let eq = scan_for(message, '=', start, end);
        let ghost rest = message@.subrange(start as int, n as int);
        let ghost part = message@.subrange(start as int, end as int);
        proof {
            if end < n {
                lemma_first_in_range(message@, '|', start as int, n as int, end as int);
                assert(rest.subrange(0, end - start) =~= part);
                assert(rest.subrange(end - start + 1, rest.len() as int) =~= message@.subrange(
                    end + 1,
                    n as int,
                ));
            } else {
                lemma_absent_in_range(message@, '|', start as int, n as int);
                assert(rest =~= part);
            }
            if eq < end {
                lemma_first_in_range(message@, '=', start as int, end as int, eq as int);
                assert(part.subrange(0, eq - start) =~= message@.subrange(start as int, eq as int));
                assert(part.subrange(eq - start + 1, part.len() as int) =~= message@.subrange(
                    eq + 1,
                    end as int,
                ));
            } else {
                lemma_absent_in_range(message@, '=', start as int, end as int);
            }
        }
        if eq < end {
            let tag = String::from_str(message.substring_char(start, eq));
            let value = String::from_str(message.substring_char(eq + 1, end));
            set_field(&mut fields, tag, value);
        }
        if end == n {
            return fields;
        }
        start = end + 1;
    }
}

/// Writes the fields in order, each as `tag=value|`.
pub fn format_fix_message(fields: &Vec<(String, String)>) -> (r: String)
    ensures
        r@ == fix_text(fields_view(fields@)),
{
    let mut message = String::new();
    let mut i: usize = 0;
    while i < fields.len()
        invariant
            i <= fields@.len(),
            message@ == fix_text(fields_view(fields@.subrange(0, i as int))),
        decreases fields@.len() - i,
    {
        message.append(fields[i].0.as_str());
        message.append("=");
        message.append(fields[i].1.as_str());
        message.append("|");
        proof {
            reveal_strlit("=");
            reveal_strlit("|");
            assert(fields_view(fields@.subrange(0, i + 1)).drop_last() =~= fields_view(
                fields@.subrange(0, i as int),
            ));
        }
        i = i + 1;
    }
    assert(fields@.subrange(0, i as int) =~= fields@);
    message
}

} // verus!
