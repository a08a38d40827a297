//! Salary records read from `name,department,salary` lines, and the
//! statistics reported over them.

use itertools::Itertools;
use vstd::prelude::*;
use crate::ranking::{distinct_names, is_ranked, lemma_ranks_before_order, ranks_before};
use crate::numbers::{digit_value, digits_value, parse_u32_spec, parse_u32_text};
use crate::text::{chars_of, push_str, same_text, string_of, texts, trim, trim_end, trim_start, trim_str, views};

verus! {

broadcast use vstd::string::group_string_axioms;

/// The pieces of `s` between occurrences of `sep` (what `str::split` yields):
/// always at least one piece, possibly empty.
pub open spec fn split_on(s: Seq<char>, sep: char) -> Seq<Seq<char>>
    decreases s.len(),
{
    if s.len() == 0 {
        seq![Seq::empty()]
    } else {
        let prev = split_on(s.drop_last(), sep);
        if s.last() == sep {
            prev.push(Seq::empty())
        } else {
            prev.update(prev.len() - 1, prev.last().push(s.last()))
        }
    }
}

/// Splitting gives at least one piece and at most one more than there are characters.
pub proof fn lemma_split_on_nonempty(s: Seq<char>, sep: char)
    ensures
        split_on(s, sep).len() >= 1,
        split_on(s, sep).len() <= s.len() + 1,
    decreases s.len(),
{
    if s.len() > 0 {
        lemma_split_on_nonempty(s.drop_last(), sep);
    }
}

/// Splits `cs` at every `sep`.
pub fn split_chars(cs: &Vec<char>, sep: char) -> (pieces: Vec<Vec<char>>)
    ensures
        views(pieces@) == split_on(cs@, sep),
{
    let mut pieces: Vec<Vec<char>> = Vec::new();
    pieces.push(Vec::new());
    assert(views(pieces@) =~= split_on(cs@.take(0), sep));
    let mut i: usize = 0;
    while i < cs.len()
        invariant
            i <= cs.len(),
            views(pieces@) == split_on(cs@.take(i as int), sep),
        decreases cs.len() - i,
    {
        proof {
            lemma_split_on_nonempty(cs@.take(i as int), sep);
        }
        assert(cs@.take(i as int + 1).drop_last() =~= cs@.take(i as int));
        let ghost prev = views(pieces@);
        let c = cs[i];
        if c == sep {
            pieces.push(Vec::new());
            assert(views(pieces@) =~= prev.push(Seq::empty()));
        } else {
            let mut last = pieces.pop().unwrap();
            last.push(c);
            pieces.push(last);
            assert(views(pieces@) =~= prev.update(prev.len() - 1, prev.last().push(c)));
        }
        i = i + 1;
    }
    assert(cs@.take(cs.len() as int) =~= cs@);
    pieces
}

/// Each piece trimmed.
pub open spec fn trim_all(ps: Seq<Seq<char>>) -> Seq<Seq<char>> {
    ps.map_values(|p: Seq<char>| trim(p))
}

/// One row of salary data.
pub struct Record {
    pub name: String,
    pub department: String,
    pub salary: u32,
}

/// A record as values: name, department, salary.
pub open spec fn record_view(r: Record) -> (Seq<char>, Seq<char>, u32) {
    (r.name@, r.department@, r.salary)
}

/// The record a line describes: exactly three comma-separated fields, each
/// trimmed, the first two non-empty and the third a `u32`.
pub open spec fn record_of(line: Seq<char>) -> Option<(Seq<char>, Seq<char>, u32)> {
    let parts = trim_all(split_on(line, ','));
    if parts.len() != 3 {
        None
    } else {
        match parse_u32_spec(parts[2]) {
            Some(salary) => if parts[0].len() == 0 || parts[1].len() == 0 {
                None
            } else {
                Some((parts[0], parts[1], salary as u32))
            },
            None => None,
        }
    }
}

/// The trimmed comma-separated fields of a line.
fn trimmed_fields(line: &str) -> (fields: Vec<String>)
    ensures
        texts(fields@) == trim_all(split_on(line@, ',')),
{
    let cs = chars_of(line);
    let pieces = split_chars(&cs, ',');
    let ghost ps = views(pieces@);
    let mut fields: Vec<String> = Vec::new();
    let mut i: usize = 0;
    while i < pieces.len()
        invariant
            ps == views(pieces@),
            ps == split_on(line@, ','),
            i <= pieces.len(),
            fields@.len() == i,
            texts(fields@) == trim_all(ps.take(i as int)),
        decreases pieces.len() - i,
    {
        let piece = string_of(&pieces[i]);
        assert(ps[i as int] == pieces@[i as int]@);
        let field = trim_str(piece.as_str()).to_owned();
        assert(field@ == trim(ps[i as int]));
        let ghost before = fields@;
        fields.push(field);
        assert(fields@ == before.push(field));
        assert forall|k: int| 0 <= k < i + 1 implies #[trigger] texts(fields@)[k] == trim_all(ps.take(i as int + 1))[k] by {
            if k < i {
                assert(fields@[k] == before[k]);
                assert(texts(before)[k] == trim_all(ps.take(i as int))[k]);
            }
        }
        assert(texts(fields@) =~= trim_all(ps.take(i as int + 1)));
        i = i + 1;
    }
    assert(ps.take(pieces.len() as int) =~= ps);
    fields
}

/// Parses one `name,department,salary` line.
pub fn parse_record(line: &str) -> (r: Option<Record>)
    ensures
        match r {
            Some(rec) => record_of(line@) == Some(record_view(rec)),
            None => record_of(line@) is None,
        },
{
    let parts = trimmed_fields(line);
    if parts.len() != 3 {
        return None;
    }
    assert(parts@[0]@ == trim_all(split_on(line@, ','))[0]);
    assert(parts@[1]@ == trim_all(split_on(line@, ','))[1]);
    assert(parts@[2]@ == trim_all(split_on(line@, ','))[2]);
    let salary = match parse_u32_text(parts[2].as_str()) {
        Some(n) => n,
        None => return None,
    };
    let name = parts[0].as_str();
    let department = parts[1].as_str();
    if name.is_empty() || department.is_empty() {
        return None;
    }
    Some(Record { name: name.to_owned(), department: department.to_owned(), salary })
}

/// ASCII lower-casing of one character.
pub open spec fn ascii_lower(c: char) -> char {
    if 'A' <= c && c <= 'Z' {
        ((c as int) + 32) as char
    } else {
        c
    }
}

/// `a` and `b` are equal when ASCII letters are compared without case
/// (what `str::eq_ignore_ascii_case` tests).
pub open spec fn eq_ignore_ascii_case(a: Seq<char>, b: Seq<char>) -> bool {
    a.len() == b.len() && forall|i: int| 0 <= i < a.len() ==> ascii_lower(#[trigger] a[i])
        == ascii_lower(b[i])
}

fn ascii_lower_exec(c: char) -> (l: char)
    ensures
        l == ascii_lower(c),
{
    if 'A' <= c && c <= 'Z' {
        let u: u32 = (c as u32) + 32;
        (u as u8) as char
    } else {
        c
    }
}

fn same_ignoring_ascii_case(a: &str, b: &str) -> (eq: bool)
    ensures
        eq == eq_ignore_ascii_case(a@, b@),
{
    let x = chars_of(a);
    let y = chars_of(b);
    if x.len() != y.len() {
        return false;
    }
    let mut i: usize = 0;
    while i < x.len()
        invariant
            x@ == a@,
            y@ == b@,
            x.len() == y.len(),
            i <= x.len(),
            forall|j: int| 0 <= j < i ==> ascii_lower(#[trigger] x@[j]) == ascii_lower(y@[j]),
        decreases x.len() - i,
    {
        if ascii_lower_exec(x[i]) != ascii_lower_exec(y[i]) {
            return false;
        }
        i = i + 1;
    }
    true
}

/// The line is the `name,department,salary` header (any ASCII case,
/// surrounding whitespace per field ignored).
pub open spec fn is_header(line: Seq<char>) -> bool {
    let parts = trim_all(split_on(line, ','));
    parts.len() == 3 && eq_ignore_ascii_case(parts[0], "name"@) && eq_ignore_ascii_case(
        parts[1],
        "department"@,
    ) && eq_ignore_ascii_case(parts[2], "salary"@)
}

/// Whether a line is the `name,department,salary` header.
pub fn is_header_row(line: &str) -> (b: bool)
    ensures
        b == is_header(line@),
{
    let parts = trimmed_fields(line);
    if parts.len() != 3 {
        return false;
    }
    assert(parts@[0]@ == trim_all(split_on(line@, ','))[0]);
    assert(parts@[1]@ == trim_all(split_on(line@, ','))[1]);
    assert(parts@[2]@ == trim_all(split_on(line@, ','))[2]);
    same_ignoring_ascii_case(parts[0].as_str(), "name") && same_ignoring_ascii_case(
        parts[1].as_str(),
        "department",
    ) && same_ignoring_ascii_case(parts[2].as_str(), "salary")
}

/// The lines of `s` as `str::lines` cuts them, before the `'\r'` of a
/// `"\r\n"` ending is dropped (trimming removes it anyway, `'\r'` being
/// whitespace): no lines for an empty text, and no empty last line after a
/// final `'\n'`.
pub open spec fn line_pieces(s: Seq<char>) -> Seq<Seq<char>> {
    if s.len() == 0 {
        Seq::empty()
    } else if s.last() == '\n' {
        split_on(s, '\n').drop_last()
    } else {
        split_on(s, '\n')
    }
}

/// The lines that are not empty.
pub open spec fn nonblank(ls: Seq<Seq<char>>) -> Seq<Seq<char>>
    decreases ls.len(),
{
    if ls.len() == 0 {
        Seq::empty()
    } else if ls.last().len() > 0 {
        nonblank(ls.drop_last()).push(ls.last())
    } else {
        nonblank(ls.drop_last())
    }
}

/// The lines after any leading header rows.
pub open spec fn skip_headers(ls: Seq<Seq<char>>) -> Seq<Seq<char>>
    decreases ls.len(),
{
    if ls.len() > 0 && is_header(ls[0]) {
        skip_headers(ls.drop_first())
    } else {
        ls
    }
}

/// The records that the lines describe, in order; other lines are skipped.
pub open spec fn records_in(ls: Seq<Seq<char>>) -> Seq<(Seq<char>, Seq<char>, u32)>
    decreases ls.len(),
{
    if ls.len() == 0 {
        Seq::empty()
    } else {
        match record_of(ls.last()) {
            Some(r) => records_in(ls.drop_last()).push(r),
            None => records_in(ls.drop_last()),
        }
    }
}

/// The records as values.
pub open spec fn records_view(rs: Seq<Record>) -> Seq<(Seq<char>, Seq<char>, u32)> {
    rs.map_values(|r: Record| record_view(r))
}

/// What `parse_records` reads from a text.
pub open spec fn records_of_text(s: Seq<char>) -> Seq<(Seq<char>, Seq<char>, u32)> {
    records_in(skip_headers(nonblank(trim_all(line_pieces(s)))))
}

proof fn lemma_blank_tail(x: Seq<Seq<char>>)
    ensures
        nonblank(trim_all(x.push(Seq::<char>::empty()))) == nonblank(trim_all(x)),
{
    let e = Seq::<char>::empty();
    assert(trim_start(e) == e);
    assert(trim_end(e) == e);
    let y = trim_all(x.push(e));
    assert(y.last() == trim(e));
    assert(y.drop_last() =~= trim_all(x));
}

/// A final `'\n'` changes nothing: a text and the same text with a newline
/// appended hold the same records, so a last line without `'\n'` is read.
pub proof fn law_final_newline_changes_nothing(t: Seq<char>)
    ensures
        records_of_text(t + seq!['\n']) == records_of_text(t),
{
    let u = t + seq!['\n'];
    assert(u.drop_last() =~= t);
    assert(u.last() == '\n');
    assert(split_on(u, '\n') == split_on(t, '\n').push(Seq::<char>::empty()));
    assert(line_pieces(u) =~= split_on(t, '\n'));
    if t.len() == 0 {
        assert(split_on(t, '\n') == seq![Seq::<char>::empty()]);
        assert(split_on(t, '\n') =~= Seq::<Seq<char>>::empty().push(Seq::<char>::empty()));
        lemma_blank_tail(Seq::<Seq<char>>::empty());
        assert(trim_all(Seq::<Seq<char>>::empty()) =~= Seq::<Seq<char>>::empty());
        assert(line_pieces(t) == Seq::<Seq<char>>::empty());
    } else if t.last() == '\n' {
        let sp = split_on(t, '\n');
        assert(sp == split_on(t.drop_last(), '\n').push(Seq::<char>::empty()));
        assert(sp =~= sp.drop_last().push(Seq::<char>::empty()));
        lemma_blank_tail(sp.drop_last());
    }
}

proof fn lemma_split_without_sep(s: Seq<char>, sep: char)
    requires
        forall|i: int| 0 <= i < s.len() ==> s[i] != sep,
    ensures
        split_on(s, sep) == seq![s],
    decreases s.len(),
{
    if s.len() > 0 {
        lemma_split_without_sep(s.drop_last(), sep);
        assert(s.last() != sep);
        assert(s.drop_last().push(s.last()) =~= s);
        assert(split_on(s, sep) =~= seq![s]);
    } else {
        assert(s =~= Seq::<char>::empty());
    }
}

/// A header row is never a record: its salary field is no number.
proof fn lemma_header_is_no_record(x: Seq<char>)
    requires
        is_header(x),
    ensures
        record_of(x) is None,
{
    let parts = trim_all(split_on(x, ','));
    let f = parts[2];
    reveal_strlit("salary");
    assert("salary"@.len() == 6);
    assert(f.len() == 6);
    assert(ascii_lower(f[5]) == ascii_lower("salary"@[5]));
    assert("salary"@[5] == 'y');
    assert(f[5] == 'y' || f[5] == 'Y');
    assert(f.last() == f[5]);
    assert(digit_value(f.last(), 10) is None);
    assert(f[0] != '+' && f[0] != '-') by {
        assert(ascii_lower(f[0]) == ascii_lower("salary"@[0]));
        assert("salary"@[0] == 's');
    }
    assert(digits_value(f, 10) is None);
    assert(parse_u32_spec(f) is None);
}

/// A text of one line that is a valid record (and holds no `'\n'`) gives
/// exactly that record, whether or not a newline follows it.
pub proof fn law_single_line_record(l: Seq<char>)
    requires
        forall|i: int| 0 <= i < l.len() ==> l[i] != '\n',
        record_of(trim(l)) is Some,
    ensures
        records_of_text(l) == seq![record_of(trim(l))->0],
        records_of_text(l + seq!['\n']) == seq![record_of(trim(l))->0],
{
    let tl = trim(l);
    if tl.len() == 0 {
        assert(split_on(tl, ',') == seq![Seq::<char>::empty()]);
        assert(trim_all(split_on(tl, ',')).len() == 1);
    }
    assert(tl.len() > 0);
    if l.len() == 0 {
        assert(trim_start(l) == l);
        assert(trim_end(l) == l);
    }
    assert(l.len() > 0);
    assert(l.last() != '\n');
    lemma_split_without_sep(l, '\n');
    assert(line_pieces(l) == seq![l]);
    assert(trim_all(seq![l]) =~= seq![tl]);
    let one = seq![tl];
    let none = Seq::<Seq<char>>::empty();
    assert(one.drop_last() =~= none);
    assert(one.last() == tl);
    assert(nonblank(none) == none);
    assert(nonblank(one) == nonblank(none).push(tl));
    assert(none.push(tl) =~= one);
    if is_header(tl) {
        lemma_header_is_no_record(tl);
    }
    assert(skip_headers(seq![tl]) == seq![tl]);
    assert(records_in(none) == Seq::<(Seq<char>, Seq<char>, u32)>::empty());
    assert(records_in(one) == records_in(none).push(record_of(tl)->0));
    assert(records_in(one) =~= seq![record_of(tl)->0]);
    law_final_newline_changes_nothing(l);
}

/// Reads the records of a text: lines are trimmed, blank lines dropped,
/// leading header rows skipped, and lines that are no valid record ignored.
pub fn parse_records(text: &str) -> (records: Vec<Record>)
    ensures
        records_view(records@) == records_of_text(text@),
{
    let cs = chars_of(text);
    let mut pieces = split_chars(&cs, '\n');
    let ghost all_pieces = views(pieces@);
    proof {
        lemma_split_on_nonempty(cs@, '\n');
    }
    if cs.len() > 0 && cs[cs.len() - 1] == '\n' {
        pieces.pop();
    } else if cs.len() == 0 {
        pieces.pop();
    }
    let ghost ps = views(pieces@);
    if cs.len() == 0 || cs[cs.len() - 1] == '\n' {
        assert(ps =~= all_pieces.drop_last());
    } else {
        assert(ps =~= all_pieces);
    }
    assert(ps =~= line_pieces(text@));
    let mut lines: Vec<String> = Vec::new();
    let mut i: usize = 0;
    while i < pieces.len()
        invariant
            ps == views(pieces@),
            i <= pieces.len(),
            texts(lines@) == nonblank(trim_all(ps.take(i as int))),
        decreases pieces.len() - i,
    {
        let piece = string_of(&pieces[i]);
        assert(ps[i as int] == pieces@[i as int]@);
        let line = trim_str(piece.as_str());
        let ghost before = lines@;
        assert(trim_all(ps.take(i as int + 1)).drop_last() =~= trim_all(ps.take(i as int)));
        assert(trim_all(ps.take(i as int + 1)).last() == line@);
        if !line.is_empty() {
            lines.push(line.to_owned());
            assert(texts(lines@) =~= texts(before).push(line@));
        }
        i = i + 1;
    }
    assert(ps.take(pieces.len() as int) =~= ps);
    let ghost ls = texts(lines@);
    let mut j: usize = 0;
    assert(ls.skip(0) =~= ls);
    while j < lines.len() && is_header_row(lines[j].as_str())
        invariant
            ls == texts(lines@),
            j <= lines.len(),
            skip_headers(ls) == skip_headers(ls.skip(j as int)),
        decreases lines.len() - j,
    {
        assert(ls.skip(j as int)[0] == lines@[j as int]@);
        assert(ls.skip(j as int).drop_first() =~= ls.skip(j as int + 1));
        j = j + 1;
    }
    proof {
        if j < lines.len() {
            assert(ls.skip(j as int)[0] == lines@[j as int]@);
        }
    }
    let ghost rest = ls.skip(j as int);
    let mut records: Vec<Record> = Vec::new();
    let mut k: usize = j;
    while k < lines.len()
        invariant
            ls == texts(lines@),
            rest == ls.skip(j as int),
            j <= k <= lines.len(),
            records_view(records@) == records_in(rest.take(k - j)),
        decreases lines.len() - k,
    {
        assert(rest.take(k - j + 1).drop_last() =~= rest.take(k - j));
        assert(rest.take(k - j + 1).last() == lines@[k as int]@);
        let ghost before = records@;
        match parse_record(lines[k].as_str()) {
            Some(r) => {
                records.push(r);
                assert(records_view(records@) =~= records_view(before).push(record_view(r)));
            },
            None => {},
        }
        k = k + 1;
    }
    assert(rest.take(lines.len() - j) =~= rest);
    records
}

/// The highest-paid record; among equal top salaries, the last one.
pub fn highest_paid(records: &[Record]) -> (r: Option<&Record>)
    ensures
        records@.len() == 0 ==> r is None,
        records@.len() > 0 ==> exists|i: int|
            0 <= i < records@.len() && r == Some(&records@[i]) && (forall|j: int|
                0 <= j < records@.len() ==> records@[j].salary <= records@[i].salary) && (forall|j: int|
                i < j < records@.len() ==> records@[j].salary < records@[i].salary),
{
    if records.len() == 0 {
        return None;
    }
    let mut best: usize = 0;
    let mut i: usize = 1;
    while i < records.len()
        invariant
            1 <= i <= records@.len(),
            best < i,
            forall|j: int| 0 <= j < i ==> records@[j].salary <= records@[best as int].salary,
            forall|j: int| best < j < i ==> records@[j].salary < records@[best as int].salary,
        decreases records@.len() - i,
    {
        if records[i].salary >= records[best].salary {
            best = i;
        }
        i = i + 1;
    }
    Some(&records[best])
}

/// The salaries, in record order.
pub open spec fn salaries_of(rs: Seq<Record>) -> Seq<u32> {
    rs.map_values(|r: Record| r.salary)
}

/// `s` is in ascending order.
pub open spec fn ascending(s: Seq<u32>) -> bool {
    forall|i: int, j: int| 0 <= i < j < s.len() ==> s[i] <= s[j]
}

/// The numbers of `v` in ascending order.
///
/// Trusted: calls `Itertools::sorted`, which collects the items into a
/// `Vec` and sorts it with `slice::sort` (ascending); the result holds the
/// same numbers, in order.
#[verifier::external_body]
fn sorted_u32(v: Vec<u32>) -> (s: Vec<u32>)
    ensures
        s@.to_multiset() == v@.to_multiset(),
        ascending(s@),
{
    v.into_iter().sorted().collect()
}

/// The two middle values of an ascending non-empty sequence: the middle one
/// twice for an odd length, the two around the middle for an even one.
pub open spec fn middle_pair(s: Seq<u32>) -> (u32, u32) {
    let mid = s.len() / 2;
    if s.len() % 2 == 1 {
        (s[mid as int], s[mid as int])
    } else {
        (s[mid - 1], s[mid as int])
    }
}

/// The salaries whose mean is the median: the middle salary twice for an
/// odd number of records, the two middle ones otherwise, taken from the
/// salaries in ascending order.
pub fn median_pair(records: &[Record]) -> (r: Option<(u32, u32)>)
    ensures
        records@.len() == 0 ==> r is None,
        records@.len() > 0 ==> exists|s: Seq<u32>|
            s.to_multiset() == salaries_of(records@).to_multiset() && ascending(s) && s.len()
                == records@.len() && r == Some(middle_pair(s)),
{
    if records.len() == 0 {
        return None;
    }
    let mut salaries: Vec<u32> = Vec::new();
    let mut i: usize = 0;
    while i < records.len()
        invariant
            i <= records@.len(),
            salaries@ == salaries_of(records@).take(i as int),
        decreases records@.len() - i,
    {
        salaries.push(records[i].salary);
        assert(salaries_of(records@).take(i as int + 1) =~= salaries_of(records@).take(i as int).push(records@[i as int].salary));
        i = i + 1;
    }
    assert(salaries@ =~= salaries_of(records@));
    let sorted = sorted_u32(salaries);
    proof {
        vstd::seq_lib::to_multiset_len(sorted@);
        vstd::seq_lib::to_multiset_len(salaries_of(records@));
    }
    let n = sorted.len();
    let mid = n / 2;
    let pair = if n % 2 == 1 {
        (sorted[mid], sorted[mid])
    } else {
        (sorted[mid - 1], sorted[mid])
    };
    assert(pair == middle_pair(sorted@));
    Some(pair)
}

/// The sum of all salaries.
pub open spec fn salary_sum(rs: Seq<Record>) -> nat
    decreases rs.len(),
{
    if rs.len() == 0 {
        0
    } else {
        salary_sum(rs.drop_last()) + rs.last().salary as nat
    }
}

/// The sum of all salaries, the numerator of the average salary.
pub fn salary_total(records: &[Record]) -> (total: u64)
    requires
        salary_sum(records@) <= u64::MAX,
    ensures
        total == salary_sum(records@),
{
    let mut total: u64 = 0;
    let mut i: usize = 0;
    while i < records.len()
        invariant
            i <= records@.len(),
            salary_sum(records@) <= u64::MAX,
            total == salary_sum(records@.take(i as int)),
        decreases records@.len() - i,
    {
        assert(records@.take(i as int + 1).drop_last() =~= records@.take(i as int));
        proof {
            lemma_salary_sum_prefix(records@, i as int + 1);
        }
        total = total + records[i].salary as u64;
        i = i + 1;
    }
    assert(records@.take(records@.len() as int) =~= records@);
    total
}

proof fn lemma_salary_sum_prefix(rs: Seq<Record>, k: int)
    requires
        0 <= k <= rs.len(),
    ensures
        salary_sum(rs.take(k)) <= salary_sum(rs),
    decreases rs.len() - k,
{
    if k < rs.len() {
        lemma_salary_sum_prefix(rs, k + 1);
        assert(rs.take(k + 1).drop_last() =~= rs.take(k));
    } else {
        assert(rs.take(k) =~= rs);
    }
}

/// Total salary of the records of department `d`.
pub open spec fn dept_total(rs: Seq<Record>, d: Seq<char>) -> nat
    decreases rs.len(),
{
    if rs.len() == 0 {
        0
    } else {
        dept_total(rs.drop_last(), d) + if rs.last().department@ == d {
            rs.last().salary as nat
        } else {
            0nat
        }
    }
}

/// The total salary of department `d`, or `None` when it exceeds `u32::MAX`.
fn dept_total_capped(records: &[Record], d: &str) -> (r: Option<u32>)
    ensures
        match r {
            Some(t) => t == dept_total(records@, d@),
            None => dept_total(records@, d@) > u32::MAX,
        },
{
    let mut total: u64 = 0;
    let mut i: usize = 0;
    while i < records.len()
        invariant
            i <= records@.len(),
            total <= u32::MAX,
            total == dept_total(records@.take(i as int), d@),
        decreases records@.len() - i,
    {
        assert(records@.take(i as int + 1).drop_last() =~= records@.take(i as int));
        if same_text(records[i].department.as_str(), d) {
            total = total + records[i].salary as u64;
        }
        if total > 0xffff_ffffu64 {
            proof {
                lemma_dept_total_prefix(records@, i as int + 1, d@);
            }
            return None;
        }
        i = i + 1;
    }
    assert(records@.take(records@.len() as int) =~= records@);
    Some(total as u32)
}

/// Whether every department's total salary fits in a `u32`, which
/// `salary_by_department` needs.
pub fn department_totals_fit(records: &[Record]) -> (ok: bool)
    ensures
        ok == (forall|j: int|
            0 <= j < records@.len() ==> dept_total(records@, #[trigger] records@[j].department@)
                <= u32::MAX),
{
    let mut j: usize = 0;
    while j < records.len()
        invariant
            j <= records@.len(),
            forall|k: int|
                0 <= k < j ==> dept_total(records@, #[trigger] records@[k].department@) <= u32::MAX,
        decreases records@.len() - j,
    {
        if dept_total_capped(records, records[j].department.as_str()).is_none() {
            return false;
        }
        j = j + 1;
    }
    true
}

/// A department with its total, as values.
pub open spec fn total_view(e: (String, u32)) -> (Seq<char>, nat) {
    (e.0@, e.1 as nat)
}

/// Departments with their totals, as values.
pub open spec fn totals_view(v: Seq<(String, u32)>) -> Seq<(Seq<char>, nat)> {
    v.map_values(|e: (String, u32)| total_view(e))
}

/// The departments of the records, in order.
pub open spec fn depts(rs: Seq<Record>) -> Seq<Seq<char>> {
    rs.map_values(|r: Record| r.department@)
}

/// The names of the entries, in order.
pub open spec fn entry_names(t: Seq<(Seq<char>, nat)>) -> Seq<Seq<char>> {
    t.map_values(|e: (Seq<char>, nat)| e.0)
}

/// `t` holds one entry per department of `rs`, with its total salary.
pub open spec fn is_dept_totals(t: Seq<(Seq<char>, nat)>, rs: Seq<Record>) -> bool {
    &&& distinct_names(t)
    &&& forall|k: int| 0 <= k < t.len() ==> #[trigger] t[k].1 == dept_total(rs, t[k].0)
    &&& forall|k: int| 0 <= k < t.len() ==> depts(rs).contains(#[trigger] entry_names(t)[k])
    &&& forall|j: int| 0 <= j < rs.len() ==> entry_names(t).contains(#[trigger] depts(rs)[j])
}

proof fn lemma_dept_total_prefix(rs: Seq<Record>, i: int, d: Seq<char>)
    requires
        0 <= i <= rs.len(),
    ensures
        dept_total(rs.take(i), d) <= dept_total(rs, d),
    decreases rs.len() - i,
{
    if i < rs.len() {
        lemma_dept_total_prefix(rs, i + 1, d);
        assert(rs.take(i + 1).drop_last() =~= rs.take(i));
    } else {
        assert(rs.take(i) =~= rs);
    }
}

proof fn lemma_no_entry_zero_total(rs: Seq<Record>, d: Seq<char>)
    requires
        !depts(rs).contains(d),
    ensures
        dept_total(rs, d) == 0,
    decreases rs.len(),
{
    if rs.len() > 0 {
        assert(depts(rs.drop_last()) =~= depts(rs).drop_last());
        if depts(rs.drop_last()).contains(d) {
            let j = choose|j: int| 0 <= j < depts(rs.drop_last()).len() && depts(rs.drop_last())[j] == d;
            assert(depts(rs)[j] == d);
        }
        lemma_no_entry_zero_total(rs.drop_last(), d);
        assert(depts(rs)[rs.len() - 1] == rs.last().department@);
    }
}

proof fn lemma_totals_grow(
    tv: Seq<(Seq<char>, nat)>,
    nt: Seq<(Seq<char>, nat)>,
    pre: Seq<Record>,
    r: Record,
    slot: int,
)
    requires
        is_dept_totals(tv, pre),
        0 <= slot <= tv.len(),
        slot < tv.len() ==> tv[slot].0 == r.department@ && nt == tv.update(
            slot,
            (r.department@, (tv[slot].1 + r.salary) as nat),
        ),
        slot == tv.len() ==> nt == tv.push((r.department@, r.salary as nat)) && forall|m: int|
            0 <= m < tv.len() ==> tv[m].0 != r.department@,
    ensures
        is_dept_totals(nt, pre.push(r)),
{
    let post = pre.push(r);
    let d = r.department@;
    assert(post.drop_last() =~= pre);
    assert(depts(post) =~= depts(pre).push(d));
    if slot == tv.len() {
        assert(!depts(pre).contains(d)) by {
            if depts(pre).contains(d) {
                let j = choose|j: int| 0 <= j < depts(pre).len() && depts(pre)[j] == d;
                assert(entry_names(tv).contains(depts(pre)[j]));
                let m = choose|m: int| 0 <= m < entry_names(tv).len() && entry_names(tv)[m] == d;
                assert(tv[m].0 == d);
            }
        }
        lemma_no_entry_zero_total(pre, d);
        assert(entry_names(nt) =~= entry_names(tv).push(d));
    } else {
        assert(entry_names(nt) =~= entry_names(tv));
    }
    assert forall|k: int| 0 <= k < nt.len() implies #[trigger] nt[k].1 == dept_total(post, nt[k].0) by {
        if k != slot {
            assert(nt[k] == tv[k]);
            assert(tv[k].1 == dept_total(pre, tv[k].0));
        } else if slot < tv.len() {
            assert(tv[k].1 == dept_total(pre, tv[k].0));
        }
    }
    assert forall|k: int| 0 <= k < nt.len() implies depts(post).contains(#[trigger] entry_names(nt)[k]) by {
        if k == slot {
            assert(depts(post)[pre.len() as int] == d);
        } else {
            assert(entry_names(nt)[k] == entry_names(tv)[k]);
            assert(depts(pre).contains(entry_names(tv)[k]));
            let j = choose|j: int| 0 <= j < depts(pre).len() && depts(pre)[j] == entry_names(tv)[k];
            assert(depts(post)[j] == depts(pre)[j]);
        }
    }
    assert forall|j: int| 0 <= j < post.len() implies entry_names(nt).contains(#[trigger] depts(post)[j]) by {
        if j == pre.len() {
            assert(entry_names(nt)[slot] == d);
        } else {
            assert(depts(post)[j] == depts(pre)[j]);
            assert(entry_names(tv).contains(depts(pre)[j]));
            let m = choose|m: int| 0 <= m < entry_names(tv).len() && entry_names(tv)[m] == depts(pre)[j];
            assert(entry_names(nt)[m] == entry_names(tv)[m]);
        }
    }
}

fn find_department(totals: &Vec<(String, u32)>, d: &str) -> (k: Option<usize>)
    ensures
        match k {
            Some(k) => k < totals@.len() && totals_view(totals@)[k as int].0 == d@,
            None => forall|m: int| 0 <= m < totals@.len() ==> totals_view(totals@)[m].0 != d@,
        },
{
    let ghost tv = totals_view(totals@);
    let mut k: usize = 0;
    while k < totals.len()
        invariant
            tv == totals_view(totals@),
            k <= totals@.len(),
            forall|m: int| 0 <= m < k ==> tv[m].0 != d@,
        decreases totals@.len() - k,
    {
        assert(tv[k as int] == total_view(totals@[k as int]));
        if same_text(totals[k].0.as_str(), d) {
            return Some(k);
        }
        k = k + 1;
    }
    None
}

fn add_salary(totals: &mut Vec<(String, u32)>, r: &Record, Ghost(pre): Ghost<Seq<Record>>)
    requires
        is_dept_totals(totals_view(old(totals)@), pre),
        dept_total(pre.push(*r), r.department@) <= u32::MAX,
    ensures
        is_dept_totals(totals_view(final(totals)@), pre.push(*r)),
{
    let ghost tv = totals_view(totals@);
    match find_department(totals, r.department.as_str()) {
        Some(k) => {
            proof {
                assert(tv[k as int] == total_view(totals@[k as int]));
                assert(tv[k as int].1 == dept_total(pre, tv[k as int].0));
                assert(pre.push(*r).drop_last() =~= pre);
            }
            let name = totals[k].0.clone();
            let sum = totals[k].1 + r.salary;
            totals.set(k, (name, sum));
            proof {
                assert(totals_view(totals@) =~= tv.update(k as int, (r.department@, (tv[k as int].1 + r.salary) as nat)));
                lemma_totals_grow(tv, totals_view(totals@), pre, *r, k as int);
            }
        },
        None => {
            totals.push((r.department.clone(), r.salary));
            proof {
                assert(totals_view(totals@) =~= tv.push((r.department@, r.salary as nat)));
                lemma_totals_grow(tv, totals_view(totals@), pre, *r, tv.len() as int);
            }
        },
    }
}

/// Total salary per department. Every department's total must fit in a `u32`.
pub fn salary_by_department(records: &[Record]) -> (totals: Vec<(String, u32)>)
    requires
        forall|j: int| 0 <= j < records@.len() ==> dept_total(records@, #[trigger] records@[j].department@) <= u32::MAX,
    ensures
        is_dept_totals(totals_view(totals@), records@),
{
    let ghost rs = records@;
    let mut totals: Vec<(String, u32)> = Vec::new();
    let mut i: usize = 0;
    assert(totals_view(totals@) =~= Seq::<(Seq<char>, nat)>::empty());
    while i < records.len()
        invariant
            rs == records@,
            forall|j: int| 0 <= j < rs.len() ==> dept_total(rs, #[trigger] rs[j].department@) <= u32::MAX,
            i <= rs.len(),
            is_dept_totals(totals_view(totals@), rs.take(i as int)),
        decreases rs.len() - i,
    {
        assert(rs.take(i as int + 1) =~= rs.take(i as int).push(rs[i as int]));
        proof {
            lemma_dept_total_prefix(rs, i + 1, rs[i as int].department@);
        }
        add_salary(&mut totals, &records[i], Ghost(rs.take(i as int)));
        i = i + 1;
    }
    assert(rs.take(rs.len() as int) =~= rs);
    totals
}

/// The sort key of a department total: larger totals first, then names in
/// ascending order.
fn department_key(e: &(String, u32)) -> (k: (u32, String))
    ensures
        k.0 == u32::MAX - e.1,
        k.1@ == e.0@,
{
    (u32::MAX - e.1, e.0.clone())
}

/// Department totals in ranking order.
///
/// Trusted: calls `Itertools::sorted_by_key` with `department_key`, which
/// collects into a `Vec` and calls `slice::sort_by_key`; with the key
/// ordered as a tuple (`u32`, then `String` byte order, which is `lex_lt`),
/// no entry of the result ranks before an earlier one, and the result holds
/// the same entries.
#[verifier::external_body]
fn sort_by_department_key(v: Vec<(String, u32)>) -> (s: Vec<(String, u32)>)
    ensures
        totals_view(s@).to_multiset() == totals_view(v@).to_multiset(),
        forall|i: int, j: int|
            0 <= i < j < s@.len() ==> !ranks_before(
                total_view(#[trigger] s@[j]),
                total_view(#[trigger] s@[i]),
            ),
{
    v.into_iter().sorted_by_key(|e| department_key(e)).collect()
}

/// Department totals with the largest first, ties by department name.
pub fn ranked_department_totals(totals: Vec<(String, u32)>) -> (ranked: Vec<(String, u32)>)
    requires
        distinct_names(totals_view(totals@)),
    ensures
        totals_view(ranked@).to_multiset() == totals_view(totals@).to_multiset(),
        is_ranked(totals_view(ranked@)),
{
    let ghost before = totals_view(totals@);
    let ranked = sort_by_department_key(totals);
    proof {
        let rv = totals_view(ranked@);
        assert forall|i: int, j: int| 0 <= i < j < rv.len() implies rv[i].0 != rv[j].0 by {
            lemma_distinct_names_permuted(before, rv);
        }
        assert forall|i: int, j: int| 0 <= i < j < rv.len() implies ranks_before(rv[i], rv[j]) by {
            assert(rv[i] == total_view(ranked@[i]));
            assert(rv[j] == total_view(ranked@[j]));
            lemma_ranks_before_order(rv[i], rv[j], rv[j]);
        }
    }
    ranked
}

proof fn lemma_distinct_names_permuted(a: Seq<(Seq<char>, nat)>, b: Seq<(Seq<char>, nat)>)
    requires
        a.to_multiset() == b.to_multiset(),
        distinct_names(a),
    ensures
        distinct_names(b),
{
    broadcast use vstd::seq_lib::to_multiset_contains;

    assert(a.no_duplicates());
    a.lemma_multiset_has_no_duplicates();
    assert forall|x: (Seq<char>, nat)| b.to_multiset().contains(x) implies b.to_multiset().count(x) == 1 by {
        assert(a.to_multiset().contains(x));
    }
    b.lemma_multiset_has_no_duplicates_conv();
    assert forall|i: int, j: int| 0 <= i < j < b.len() implies b[i].0 != b[j].0 by {
        assert(b.to_multiset().count(b[i]) > 0);
        assert(b.to_multiset().count(b[j]) > 0);
        assert(a.contains(b[i]));
        assert(a.contains(b[j]));
        let p = choose|p: int| 0 <= p < a.len() && a[p] == b[i];
        let q = choose|q: int| 0 <= q < a.len() && a[q] == b[j];
        if p < q {
        } else if q < p {
        }
    }
}

/// Usage text of the salary report tool.
pub fn usage(exe: &str) -> (u: String)
    ensures
        u@ == "Usage:\n  "@ + exe@ + " [path]\n\nIf [path] is omitted, reads from stdin.\nInput format: name,department,salary (one row per line)\n"@,
{
    let mut u = "Usage:\n  ".to_owned();
    push_str(&mut u, exe);
    push_str(&mut u, " [path]\n\nIf [path] is omitted, reads from stdin.\nInput format: name,department,salary (one row per line)\n");
    u
}

} // verus!
