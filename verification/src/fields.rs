//! `KEY=value` fields separated by `;`, the shape of the serial line and of
//! the temperature reports.
use vstd::prelude::*;
use crate::text::{
    eq_ignore_ascii_case, is_whitespace, lemma_trim_end_suffix, lemma_trim_noop, occurs_at,
    occurs_at_exec, range_eq_ignore_ascii_case, starts_with, trim, trim_range, trim_start,
};

verus! {

/// The separator between two fields.
pub open spec fn field_separator() -> char {
    ';'
}

/// `str::split` by one character, with `cur` holding the part of the current
/// field that lies before `rest`.
pub open spec fn split_acc(cur: Seq<char>, rest: Seq<char>, sep: char) -> Seq<Seq<char>>
    decreases rest.len(),
{
    if rest.len() == 0 {
        seq![cur]
    } else if rest[0] == sep {
        seq![cur] + split_acc(Seq::empty(), rest.drop_first(), sep)
    } else {
        split_acc(cur.push(rest[0]), rest.drop_first(), sep)
    }
}

/// The pieces that `s.split(sep)` yields: one more than the separators in `s`.
pub open spec fn split(s: Seq<char>, sep: char) -> Seq<Seq<char>> {
    split_acc(Seq::empty(), s, sep)
}

/// What `find_map(|f| f.trim().strip_prefix(prefix))` gives over `fields`.
pub open spec fn first_stripped(fields: Seq<Seq<char>>, prefix: Seq<char>) -> Option<Seq<char>>
    decreases fields.len(),
{
    if fields.len() == 0 {
        None
    } else if starts_with(trim(fields[0]), prefix) {
        Some(trim(fields[0]).skip(prefix.len() as int))
    } else {
        first_stripped(fields.drop_first(), prefix)
    }
}

/// The text after `prefix` in the first field of `line` whose trimmed form
/// starts with `prefix`.
pub open spec fn field_value(line: Seq<char>, prefix: Seq<char>) -> Option<Seq<char>> {
    first_stripped(split(line, field_separator()), prefix)
}

/// Some trimmed field of `fields` equals `expected`, ASCII case ignored.
pub open spec fn any_field_is(fields: Seq<Seq<char>>, expected: Seq<char>) -> bool
    decreases fields.len(),
{
    if fields.len() == 0 {
        false
    } else {
        eq_ignore_ascii_case(trim(fields[0]), expected) || any_field_is(fields.drop_first(), expected)
    }
}

pub open spec fn has_field(line: Seq<char>, expected: Seq<char>) -> bool {
    any_field_is(split(line, field_separator()), expected)
}

pub open spec fn no_separator(s: Seq<char>, sep: char) -> bool {
    forall|i: int| 0 <= i < s.len() ==> #[trigger] s[i] != sep
}

/// A run without separators only extends the current field.
pub proof fn lemma_split_run(cur: Seq<char>, a: Seq<char>, b: Seq<char>, sep: char)
    requires
        no_separator(a, sep),
    ensures
        split_acc(cur, a + b, sep) == split_acc(cur + a, b, sep),
    decreases a.len(),
{
    if a.len() == 0 {
        assert(a + b =~= b);
        assert(cur + a =~= cur);
    } else {
        assert((a + b)[0] == a[0]);
        assert((a + b).drop_first() =~= a.drop_first() + b);
        assert(no_separator(a.drop_first(), sep)) by {
            assert forall|i: int| 0 <= i < a.drop_first().len() implies #[trigger] a.drop_first()[i]
                != sep by {
                assert(a.drop_first()[i] == a[i + 1]);
            }
        }
        lemma_split_run(cur.push(a[0]), a.drop_first(), b, sep);
        assert(cur.push(a[0]) + a.drop_first() =~= cur + a);
    }
}

/// The fields of `a ; b` when `a` holds no separator.
pub proof fn lemma_split_first_field(a: Seq<char>, b: Seq<char>, sep: char)
    requires
        no_separator(a, sep),
    ensures
        split(a + seq![sep] + b, sep) == seq![a] + split(b, sep),
{
    lemma_split_run(Seq::empty(), a, seq![sep] + b, sep);
    assert(a + seq![sep] + b =~= a + (seq![sep] + b));
    assert(Seq::<char>::empty() + a =~= a);
    assert((seq![sep] + b)[0] == sep);
    assert((seq![sep] + b).drop_first() =~= b);
}

/// The fields of a text without separators.
pub proof fn lemma_split_single(a: Seq<char>, sep: char)
    requires
        no_separator(a, sep),
    ensures
        split(a, sep) == seq![a],
{
    lemma_split_run(Seq::empty(), a, Seq::empty(), sep);
    assert(a + Seq::<char>::empty() =~= a);
    assert(Seq::<char>::empty() + a =~= a);
}

proof fn lemma_field_at(line: Seq<char>, start: int, end: int, sep: char)
    requires
        0 <= start <= end <= line.len(),
        no_separator(line.subrange(start, end), sep),
        end == line.len() || line[end] == sep,
    ensures
        end == line.len() ==> split_acc(Seq::empty(), line.skip(start), sep) == seq![
            line.subrange(start, end),
        ],
        end < line.len() ==> split_acc(Seq::empty(), line.skip(start), sep) == seq![
            line.subrange(start, end),
        ] + split_acc(Seq::empty(), line.skip(end + 1), sep),
{
    let a = line.subrange(start, end);
    let b = line.skip(end);
    assert(line.skip(start) =~= a + b);
    lemma_split_run(Seq::empty(), a, b, sep);
    assert(Seq::<char>::empty() + a =~= a);
    if end < line.len() {
        assert(b[0] == sep);
        assert(b.drop_first() =~= line.skip(end + 1));
    } else {
        assert(b.len() == 0);
    }
}

/// The end of the field that begins at `start`: the next separator, or the end.
fn field_end(line: &Vec<char>, start: usize) -> (end: usize)
    requires
        start <= line.len(),
    ensures
        start <= end <= line.len(),
        no_separator(line@.subrange(start as int, end as int), field_separator()),
        end == line.len() || line@[end as int] == field_separator(),
{
    let mut end = start;
    while end < line.len() && line[end] != ';'
        invariant
            start <= end <= line.len(),
            no_separator(line@.subrange(start as int, end as int), field_separator()),
        decreases line.len() - end,
    {
        proof {
            assert forall|i: int| 0 <= i < end + 1 - start implies #[trigger] line@.subrange(
                start as int,
                end + 1,
            )[i] != field_separator() by {
                if i < end - start {
                    assert(line@.subrange(start as int, end + 1)[i] == line@.subrange(
                        start as int,
                        end as int,
                    )[i]);
                }
            }
        }
        end = end + 1;
    }
    end
}

/// The bounds in `line` of the value after `prefix` in the first field whose
/// trimmed form starts with `prefix`.
pub fn field_value_range(line: &Vec<char>, prefix: &Vec<char>) -> (r: Option<(usize, usize)>)
    ensures
        match r {
            Some((a, b)) => a <= b <= line.len() && field_value(line@, prefix@) == Some(
                line@.subrange(a as int, b as int),
            ),
            None => field_value(line@, prefix@) is None,
        },
{
    let mut start: usize = 0;
    proof {
        assert(line@.skip(0) =~= line@);
    }
    loop
        invariant
            start <= line.len(),
            field_value(line@, prefix@) == first_stripped(
                split_acc(Seq::empty(), line@.skip(start as int), field_separator()),
                prefix@,
            ),
        decreases line.len() - start,
    {
        let end = field_end(line, start);
        let (ts, te) = trim_range(line, start, end);
        let ghost field = line@.subrange(start as int, end as int);
        let ghost rest = split_acc(Seq::empty(), line@.skip(start as int), field_separator());
        proof {
            lemma_field_at(line@, start as int, end as int, field_separator());
            assert(rest[0] == field);
            assert(trim(field) == line@.subrange(ts as int, te as int));
        }
        if te - ts >= prefix.len() && occurs_at_exec(line, prefix, ts) {
            proof {
                assert(line@.subrange(ts as int, te as int).take(prefix.len() as int) =~= line@.subrange(
                    ts as int,
                    ts + prefix.len(),
                ));
                assert(line@.subrange(ts as int, te as int).skip(prefix.len() as int) =~= line@.subrange(
                    ts + prefix.len(),
                    te as int,
                ));
            }
            return Some((ts + prefix.len(), te));
        }
        proof {
            if starts_with(trim(field), prefix@) {
                assert(line@.subrange(ts as int, te as int).take(prefix.len() as int) =~= line@.subrange(
                    ts as int,
                    ts + prefix.len(),
                ));
                assert(occurs_at(line@, prefix@, ts as int));
            }
        }
        if end == line.len() {
            proof {
                assert(rest.drop_first().len() == 0);
                assert(first_stripped(rest.drop_first(), prefix@) is None);
            }
            return None;
        }
        proof {
            assert(rest.drop_first() =~= split_acc(
                Seq::empty(),
                line@.skip(end + 1),
                field_separator(),
            ));
        }
        start = end + 1;
    }
}

/// Whether some trimmed field of `line` equals `expected`, ASCII case ignored.
pub fn has_field_exec(line: &Vec<char>, expected: &Vec<char>) -> (b: bool)
    ensures
        b == has_field(line@, expected@),
{
    let mut start: usize = 0;
    proof {
        assert(line@.skip(0) =~= line@);
    }
    loop
        invariant
            start <= line.len(),
            has_field(line@, expected@) == any_field_is(
                split_acc(Seq::empty(), line@.skip(start as int), field_separator()),
                expected@,
            ),
        decreases line.len() - start,
    {
        let end = field_end(line, start);
        let (ts, te) = trim_range(line, start, end);
        let ghost field = line@.subrange(start as int, end as int);
        let ghost rest = split_acc(Seq::empty(), line@.skip(start as int), field_separator());
        proof {
            lemma_field_at(line@, start as int, end as int, field_separator());
            assert(rest[0] == field);
        }
        if range_eq_ignore_ascii_case(line, ts, te, expected) {
            return true;
        }
        if end == line.len() {
            proof {
                assert(rest.drop_first().len() == 0);
                assert(!any_field_is(rest.drop_first(), expected@));
            }
            return false;
        }
        proof {
            assert(rest.drop_first() =~= split_acc(
                Seq::empty(),
                line@.skip(end + 1),
                field_separator(),
            ));
        }
        start = end + 1;
    }
}

/// `key=value`.
pub open spec fn field(key: Seq<char>, value: Seq<char>) -> Seq<char> {
    key.push('=') + value
}

pub proof fn lemma_field_facts(key: Seq<char>, value: Seq<char>)
    requires
        no_separator(key, field_separator()),
        no_separator(value, field_separator()),
        key.len() > 0,
        !is_whitespace(key[0]),
        value.len() > 0,
        !is_whitespace(value.last()),
    ensures
        no_separator(field(key, value), field_separator()),
        trim(field(key, value)) == field(key, value),
        starts_with(field(key, value), key.push('=')),
        field(key, value).skip(key.len() + 1int) == value,
{
    let f = field(key, value);
    assert forall|i: int| 0 <= i < f.len() implies #[trigger] f[i] != field_separator() by {
        if i < key.len() {
            assert(f[i] == key[i]);
        } else if i == key.len() {
        } else {
            assert(f[i] == value[i - key.len() - 1]);
        }
    }
    assert(f[0] == key[0]);
    assert(f.last() == value.last());
    lemma_trim_noop(f);
    assert(f.take(key.len() + 1int) =~= key.push('='));
    assert(f.skip(key.len() + 1int) =~= value);
}

pub proof fn lemma_not_prefix(s: Seq<char>, p: Seq<char>, k: int)
    requires
        0 <= k < p.len(),
        k < s.len(),
        s[k] != p[k],
    ensures
        !starts_with(s, p),
{
    if starts_with(s, p) {
        assert(s.take(p.len() as int)[k] == p[k]);
    }
}

/// A line end after a field whose ends are not whitespace is trimmed away.
pub proof fn lemma_trim_newline(f: Seq<char>)
    requires
        f.len() > 0,
        !is_whitespace(f[0]),
        !is_whitespace(f.last()),
    ensures
        trim(f + seq!['\n']) == f,
{
    let last = f + seq!['\n'];
    assert(last[0] == f[0]);
    assert(trim_start(last) == last);
    assert forall|i: int| 0 <= i < seq!['\n'].len() implies is_whitespace(#[trigger] seq!['\n'][i]) by {}
    lemma_trim_end_suffix(f, seq!['\n']);
}

/// The value of the first field that starts with `prefix` when that is the
/// field at `k`.
pub proof fn lemma_first_stripped_at(fields: Seq<Seq<char>>, prefix: Seq<char>, k: int)
    requires
        0 <= k < fields.len(),
        forall|j: int| 0 <= j < k ==> !starts_with(trim(#[trigger] fields[j]), prefix),
        starts_with(trim(fields[k]), prefix),
    ensures
        first_stripped(fields, prefix) == Some(trim(fields[k]).skip(prefix.len() as int)),
    decreases k,
{
    if k > 0 {
        let rest = fields.drop_first();
        assert forall|j: int| 0 <= j < k - 1 implies !starts_with(trim(#[trigger] rest[j]), prefix) by {
            assert(rest[j] == fields[j + 1]);
        }
        assert(rest[k - 1] == fields[k]);
        assert(!starts_with(trim(fields[0]), prefix));
        lemma_first_stripped_at(rest, prefix, k - 1);
    }
}

} // verus!
