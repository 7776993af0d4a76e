//! The selection syntax: `all`, `none`, or a comma-separated list of one-based
//! indices and inclusive ranges such as `1,3-5`.

use crate::text::{
    all_digits, chars_of, decimal_string, decimal_text, equals_ignoring_case, find_char, find_in,
    is_digit, lemma_decimal_text, lemma_digit_is_plain, lemma_find_char_after,
    lemma_find_char_is, lemma_trim_nothing, lowercase, parse_unsigned, parse_unsigned_in, trim,
    trim_bounds,
};
use vstd::prelude::*;
use vstd::string::*;

verus! {

/// Why a selection string was turned down.
#[derive(Debug, Clone, PartialEq, Eq)]
pub enum SelectionError {
    /// Nothing but whitespace was entered.
    EmptyInput,
    /// An item between two commas, or at either end of the list, is blank.
    EmptyItem,
    /// A range whose start lies after its end; `item` is the range as entered.
    InvalidRange { item: String },
    /// An index that does not read as an unsigned integer; `text` is what was entered.
    NotANumber { text: String },
    /// An index of zero, or one above `max`.
    OutOfRange { value: usize, max: usize },
}

/// The mathematical content of a [`SelectionError`].
pub enum SelectionFault {
    EmptyInput,
    EmptyItem,
    InvalidRange { item: Seq<char> },
    NotANumber { text: Seq<char> },
    OutOfRange { value: nat, max: nat },
}

impl View for SelectionError {
    type V = SelectionFault;

    open spec fn view(&self) -> SelectionFault {
        match self {
            SelectionError::EmptyInput => SelectionFault::EmptyInput,
            SelectionError::EmptyItem => SelectionFault::EmptyItem,
            SelectionError::InvalidRange { item } => SelectionFault::InvalidRange { item: item@ },
            SelectionError::NotANumber { text } => SelectionFault::NotANumber { text: text@ },
            SelectionError::OutOfRange { value, max } => SelectionFault::OutOfRange {
                value: *value as nat,
                max: *max as nat,
            },
        }
    }
}

impl SelectionFault {
    /// The fault in words, as shown to the user.
    pub open spec fn message(self) -> Seq<char> {
        match self {
            SelectionFault::EmptyInput => "enter indices, ranges, `all`, or `none`"@,
            SelectionFault::EmptyItem => "empty item in list"@,
            SelectionFault::InvalidRange { item } => "range start must be <= end: `"@ + item
                + "`"@,
            SelectionFault::NotANumber { text } => "not a valid number: `"@ + text + "`"@,
            SelectionFault::OutOfRange { value, max } => "index out of range: `"@ + decimal_text(
                value,
            ) + "` (valid: 1-"@ + decimal_text(max) + ")"@,
        }
    }
}

impl SelectionError {
    /// The error in words, as shown to the user.
    pub fn message(&self) -> (text: String)
        ensures
            text@ == self@.message(),
    {
        match self {
            SelectionError::EmptyInput => String::from_str(
                "enter indices, ranges, `all`, or `none`",
            ),
            SelectionError::EmptyItem => String::from_str("empty item in list"),
            SelectionError::InvalidRange { item } => {
                let mut text = String::from_str("range start must be <= end: `");
                text.append(item.as_str());
                text.append("`");
                text
            },
            SelectionError::NotANumber { text: entered } => {
                let mut text = String::from_str("not a valid number: `");
                text.append(entered.as_str());
                text.append("`");
                text
            },
            SelectionError::OutOfRange { value, max } => {
                let mut text = String::from_str("index out of range: `");
                text.append(decimal_string(*value).as_str());
                text.append("` (valid: 1-");
                text.append(decimal_string(*max).as_str());
                text.append(")");
                text
            },
        }
    }
}

/// Whether `v` is strictly ascending, and so free of duplicates.
pub open spec fn ascending(v: Seq<usize>) -> bool {
    forall|i: int, j: int| 0 <= i < j < v.len() ==> v[i] < v[j]
}

/// Whether `v` is a selection over `max` files: strictly ascending zero-based
/// indices, each below `max`.
pub open spec fn is_selection_set(v: Seq<usize>, max: nat) -> bool {
    &&& ascending(v)
    &&& forall|k: int| 0 <= k < v.len() ==> v[k] < max
}

/// The indices that occur in `v`.
pub open spec fn index_set(v: Seq<usize>) -> Set<int> {
    Set::new(|i: int| exists|k: int| 0 <= k < v.len() && v[k] as int == i)
}

/// The zero-based indices that the one-based inclusive range `start..=end` covers.
pub open spec fn span(start: nat, end: nat) -> Set<int> {
    Set::new(|i: int| start - 1 <= i < end)
}

/// One endpoint: `text` must read as an unsigned integer in `1..=max`.
pub open spec fn one_based(text: Seq<char>, max: nat) -> Result<nat, SelectionFault> {
    match parse_unsigned(text) {
        None => Err(SelectionFault::NotANumber { text }),
        Some(n) => if n == 0 || n > max {
            Err(SelectionFault::OutOfRange { value: n, max })
        } else {
            Ok(n)
        },
    }
}

/// One trimmed list item: the one-based bounds `(start, end)` that it selects.
/// An item with a hyphen is split at its first hyphen into two endpoints, each
/// trimmed and read on its own, the start before the end; any other item is a
/// single index, which selects `(n, n)`.
pub open spec fn item_bounds(item: Seq<char>, max: nat) -> Result<(nat, nat), SelectionFault> {
    let hyphen = find_char(item, '-');
    if item.len() == 0 {
        Err(SelectionFault::EmptyItem)
    } else if hyphen < item.len() {
        match one_based(trim(item.take(hyphen)), max) {
            Err(e) => Err(e),
            Ok(start) => match one_based(trim(item.skip(hyphen + 1)), max) {
                Err(e) => Err(e),
                Ok(end) => if start > end {
                    Err(SelectionFault::InvalidRange { item })
                } else {
                    Ok((start, end))
                },
            },
        }
    } else {
        match one_based(item, max) {
            Err(e) => Err(e),
            Ok(n) => Ok((n, n)),
        }
    }
}

/// `found` together with what the rest of a list selects; a fault in the rest wins.
pub open spec fn joined(found: Set<int>, rest: Result<Set<int>, SelectionFault>) -> Result<
    Set<int>,
    SelectionFault,
> {
    match rest {
        Err(e) => Err(e),
        Ok(more) => Ok(found.union(more)),
    }
}

/// A comma-separated list: the union of what its items select, or the fault
/// of the leftmost item that has one.
pub open spec fn list_indices(list: Seq<char>, max: nat) -> Result<Set<int>, SelectionFault>
    decreases list.len(),
{
    let comma = find_char(list, ',');
    match item_bounds(trim(list.take(comma)), max) {
        Err(e) => Err(e),
        Ok((start, end)) => if 0 <= comma < list.len() {
            joined(span(start, end), list_indices(list.skip(comma + 1), max))
        } else {
            Ok(span(start, end))
        },
    }
}

/// What `input` selects among `max` files, as a set of zero-based indices.
pub open spec fn selection(input: Seq<char>, max: nat) -> Result<Set<int>, SelectionFault> {
    let entered = trim(input);
    if lowercase(entered) == seq!['a', 'l', 'l'] {
        Ok(Set::new(|i: int| 0 <= i < max))
    } else if lowercase(entered) == seq!['n', 'o', 'n', 'e'] {
        Ok(Set::empty())
    } else if entered.len() == 0 {
        Err(SelectionFault::EmptyInput)
    } else {
        list_indices(entered, max)
    }
}

/// Reads one endpoint held in `[lo, hi)` of `s`, the characters of `input`.
fn one_based_in(input: &str, s: &Vec<char>, lo: usize, hi: usize, max: usize) -> (r: Result<
    usize,
    SelectionError,
>)
    requires
        s@ == input@,
        lo <= hi <= s.len(),
    ensures
        match r {
            Ok(n) => one_based(s@.subrange(lo as int, hi as int), max as nat) == Ok::<
                nat,
                SelectionFault,
            >(n as nat),
            Err(e) => one_based(s@.subrange(lo as int, hi as int), max as nat) == Err::<
                nat,
                SelectionFault,
            >(e@),
        },
{
    match parse_unsigned_in(s, lo, hi) {
        None => {
            let text = String::from_str(input.substring_char(lo, hi));
            Err(SelectionError::NotANumber { text })
        },
        Some(n) => if n == 0 || n > max {
            Err(SelectionError::OutOfRange { value: n, max })
        } else {
            Ok(n)
        },
    }
}

/// Reads one index in user-facing form: an unsigned integer in `1..=max`.
pub fn parse_one_based(value: &str, max: usize) -> (r: Result<usize, SelectionError>)
    ensures
        match r {
            Ok(n) => one_based(value@, max as nat) == Ok::<nat, SelectionFault>(n as nat),
            Err(e) => one_based(value@, max as nat) == Err::<nat, SelectionFault>(e@),
        },
{
    let s = chars_of(value);
    assert(s@.subrange(0, s.len() as int) =~= value@);
    one_based_in(value, &s, 0, s.len(), max)
}

/// Reads the trimmed list item held in `[lo, hi)` of `s`, the characters of `input`.
fn item_bounds_in(input: &str, s: &Vec<char>, lo: usize, hi: usize, max: usize) -> (r: Result<
    (usize, usize),
    SelectionError,
>)
    requires
        s@ == input@,
        lo <= hi <= s.len(),
    ensures
        match r {
            Ok(b) => item_bounds(s@.subrange(lo as int, hi as int), max as nat) == Ok::<
                (nat, nat),
                SelectionFault,
            >((b.0 as nat, b.1 as nat)) && 1 <= b.0 <= b.1 <= max,
            Err(e) => item_bounds(s@.subrange(lo as int, hi as int), max as nat) == Err::<
                (nat, nat),
                SelectionFault,
            >(e@),
        },
{
    let ghost item = s@.subrange(lo as int, hi as int);
    if lo == hi {
        return Err(SelectionError::EmptyItem);
    }
    let hyphen = find_in(s, lo, hi, '-');
    if hyphen < hi {
        let (a, b) = trim_bounds(s, lo, hyphen);
        let (c, d) = trim_bounds(s, hyphen + 1, hi);
        assert(item.take(hyphen - lo) =~= s@.subrange(lo as int, hyphen as int));
        assert(item.skip(hyphen - lo + 1) =~= s@.subrange(hyphen as int + 1, hi as int));
        let start = one_based_in(input, s, a, b, max)?;
        let end = one_based_in(input, s, c, d, max)?;
        if start > end {
            let item = String::from_str(input.substring_char(lo, hi));
            return Err(SelectionError::InvalidRange { item });
        }
        Ok((start, end))
    } else {
        let n = one_based_in(input, s, lo, hi, max)?;
        Ok((n, n))
    }
}

/// Puts `x` into the ascending vector `v`, unless it is there already.
fn insert_ascending(v: &mut Vec<usize>, x: usize)
    requires
        ascending(old(v)@),
    ensures
        ascending(final(v)@),
        index_set(final(v)@) == index_set(old(v)@).insert(x as int),
{
    let mut pos: usize = v.len();
    while pos > 0 && v[pos - 1] > x
        invariant
            pos <= v.len(),
            v@ == old(v)@,
            ascending(v@),
            forall|k: int| pos <= k < v.len() ==> v@[k] > x,
        decreases pos,
    {
        pos = pos - 1;
    }
    if pos > 0 && v[pos - 1] == x {
        assert(index_set(v@) =~= index_set(v@).insert(x as int));
        return;
    }
    let ghost before = v@;
    v.insert(pos, x);
    assert(ascending(v@)) by {
        assert forall|i: int, j: int| 0 <= i < j < v@.len() implies v@[i] < v@[j] by {
            if j < pos {
                assert(v@[i] == before[i] && v@[j] == before[j]);
            } else if j == pos {
                assert(v@[i] == before[i]);
                assert(before[i] <= before[pos - 1]);
            } else if i < pos {
                assert(v@[i] == before[i] && v@[j] == before[j - 1]);
            } else if i == pos {
                assert(v@[j] == before[j - 1]);
            } else {
                assert(v@[i] == before[i - 1] && v@[j] == before[j - 1]);
            }
        }
    }
    assert(index_set(v@) =~= index_set(before).insert(x as int)) by {
        assert forall|y: int| index_set(v@).contains(y) implies index_set(before).insert(
            x as int,
        ).contains(y) by {
            let k = choose|k: int| 0 <= k < v@.len() && v@[k] as int == y;
            if k < pos {
                assert(before[k] as int == y);
            } else if k > pos {
                assert(before[k - 1] as int == y);
            }
        }
        assert forall|y: int| index_set(before).insert(x as int).contains(y) implies index_set(
            v@,
        ).contains(y) by {
            if y == x as int {
                assert(v@[pos as int] as int == y);
            } else {
                let k = choose|k: int| 0 <= k < before.len() && before[k] as int == y;
                if k < pos {
                    assert(v@[k] as int == y);
                } else {
                    assert(v@[k + 1] as int == y);
                }
            }
        }
    }
}

/// Reads a selection over `max` files. `all` selects every file and `none`
/// selects nothing, in any letter case; otherwise `input` is a comma-separated
/// list of one-based indices and inclusive `START-END` ranges. Whitespace round
/// the input, round an item and round a range's endpoints is ignored. The
/// result is a fault if any item has one, and else the zero-based indices, each
/// once, in ascending order.
pub fn parse_selection(input: &str, max: usize) -> (r: Result<Vec<usize>, SelectionError>)
    ensures
        match r {
            Ok(v) => is_selection_set(v@, max as nat) && selection(input@, max as nat) == Ok::<
                Set<int>,
                SelectionFault,
            >(index_set(v@)),
            Err(e) => selection(input@, max as nat) == Err::<Set<int>, SelectionFault>(e@),
        },
{
    let s = chars_of(input);
    let (lo, hi) = trim_bounds(&s, 0, s.len());
    assert(s@.subrange(0, s.len() as int) =~= input@);
    let ghost entered = s@.subrange(lo as int, hi as int);
    let all: Vec<char> = vec!['a', 'l', 'l'];
    let none: Vec<char> = vec!['n', 'o', 'n', 'e'];
    assert(all@ =~= seq!['a', 'l', 'l']);
    assert(none@ =~= seq!['n', 'o', 'n', 'e']);
    if equals_ignoring_case(&s, lo, hi, &all) {
        let mut v: Vec<usize> = Vec::new();
        let mut i: usize = 0;
        while i < max
            invariant
                i <= max,
                v@.len() == i,
                forall|k: int| 0 <= k < i ==> v@[k] == k,
            decreases max - i,
        {
            v.push(i);
            i = i + 1;
        }
        assert(index_set(v@) =~= Set::new(|i: int| 0 <= i < max)) by {
            assert forall|y: int| 0 <= y < max implies index_set(v@).contains(y) by {
                assert(v@[y] as int == y);
            }
        }
        return Ok(v);
    }
    if equals_ignoring_case(&s, lo, hi, &none) {
        let v: Vec<usize> = Vec::new();
        assert(index_set(v@) =~= Set::<int>::empty());
        return Ok(v);
    }
    if lo == hi {
        return Err(SelectionError::EmptyInput);
    }
    let mut acc: Vec<usize> = Vec::new();
    let mut pos: usize = lo;
    assert(index_set(acc@) =~= Set::<int>::empty());
    assert(joined(index_set(acc@), list_indices(entered, max as nat)) == list_indices(
        entered,
        max as nat,
    )) by {
        match list_indices(entered, max as nat) {
            Ok(more) => {
                assert(Set::<int>::empty().union(more) =~= more);
            },
            Err(_) => {},
        }
    }
    loop
        invariant
            s@ == input@,
            lo <= pos <= hi <= s.len(),
            entered == s@.subrange(lo as int, hi as int),
            selection(input@, max as nat) == list_indices(entered, max as nat),
            is_selection_set(acc@, max as nat),
            list_indices(entered, max as nat) == joined(
                index_set(acc@),
                list_indices(s@.subrange(pos as int, hi as int), max as nat),
            ),
        decreases hi - pos,
    {
        let ghost rest = s@.subrange(pos as int, hi as int);
        let ghost found = index_set(acc@);
        let comma = find_in(&s, pos, hi, ',');
        let (a, b) = trim_bounds(&s, pos, comma);
        assert(rest.take(comma - pos) =~= s@.subrange(pos as int, comma as int));
        if comma < hi {
            assert(rest.skip(comma - pos + 1) =~= s@.subrange(comma as int + 1, hi as int));
        }
        let (start, end) = match item_bounds_in(input, &s, a, b, max) {
            Ok(bounds) => bounds,
            Err(e) => {
                return Err(e);
            },
        };
        let mut z: usize = start - 1;
        while z < end
            invariant
                start - 1 <= z <= end <= max,
                is_selection_set(acc@, max as nat),
                index_set(acc@) == found.union(Set::new(|i: int| start - 1 <= i < z)),
            decreases end - z,
        {
            let ghost prior = index_set(acc@);
            insert_ascending(&mut acc, z);
            assert(index_set(acc@) =~= found.union(Set::new(|i: int| start - 1 <= i < z + 1)));
            assert forall|k: int| 0 <= k < acc@.len() implies acc@[k] < max by {
                assert(index_set(acc@).contains(acc@[k] as int));
            }
            z = z + 1;
        }
        if comma >= hi {
            return Ok(acc);
        }
        assert(joined(found, joined(span(start as nat, end as nat), list_indices(
            s@.subrange(comma as int + 1, hi as int), max as nat))) == joined(
            index_set(acc@),
            list_indices(s@.subrange(comma as int + 1, hi as int), max as nat),
        )) by {
            match list_indices(s@.subrange(comma as int + 1, hi as int), max as nat) {
                Ok(more) => {
                    assert(found.union(span(start as nat, end as nat).union(more)) =~= index_set(
                        acc@,
                    ).union(more));
                },
                Err(_) => {},
            }
        }
        pos = comma + 1;
    }
}

/// `v` as a selection string that reads back as `v`: `none` for the empty
/// selection, and else the one-based indices in order, separated by commas.
pub open spec fn canonical_text(v: Seq<usize>) -> Seq<char> {
    if v.len() == 0 {
        "none"@
    } else {
        canonical_list(v)
    }
}

/// The one-based forms of the indices `v`, in order, separated by commas.
pub open spec fn canonical_list(v: Seq<usize>) -> Seq<char>
    decreases v.len(),
{
    if v.len() == 0 {
        Seq::empty()
    } else if v.len() == 1 {
        decimal_text((v[0] + 1) as nat)
    } else {
        decimal_text((v[0] + 1) as nat) + seq![','] + canonical_list(v.skip(1))
    }
}

/// Writes a selection as a string that [`parse_selection`] reads back as the
/// same selection.
pub fn format_selection(v: &Vec<usize>) -> (text: String)
    requires
        forall|k: int| 0 <= k < v@.len() ==> v@[k] < usize::MAX,
    ensures
        text@ == canonical_text(v@),
{
    if v.len() == 0 {
        return String::from_str("none");
    }
    let mut text = decimal_string(v[v.len() - 1] + 1);
    let mut k: usize = v.len() - 1;
    assert(v@.skip(k as int) =~= seq![v@[k as int]]);
    while k > 0
        invariant
            k < v@.len(),
            forall|i: int| 0 <= i < v@.len() ==> v@[i] < usize::MAX,
            text@ == canonical_list(v@.skip(k as int)),
        decreases k,
    {
        k = k - 1;
        let mut longer = decimal_string(v[k] + 1);
        longer.append(",");
        longer.append(text.as_str());
        proof {
            reveal_strlit(",");
            assert(","@ =~= seq![',']);
            assert(v@.skip(k as int).skip(1) =~= v@.skip(k + 1));
        }
        text = longer;
    }
    assert(v@.skip(0) =~= v@);
    text
}

/// `all` selects every index below `max`, whatever `max` is.
pub proof fn lemma_all_selects_every_index(max: nat)
    ensures
        selection("all"@, max) == Ok::<Set<int>, SelectionFault>(Set::new(|i: int| 0 <= i < max)),
{
    reveal_strlit("all");
    lemma_trim_nothing("all"@);
    assert(lowercase("all"@) =~= seq!['a', 'l', 'l']);
}

/// `none` selects nothing, whatever `max` is.
pub proof fn lemma_none_selects_nothing(max: nat)
    ensures
        selection("none"@, max) == Ok::<Set<int>, SelectionFault>(Set::empty()),
{
    reveal_strlit("none");
    lemma_trim_nothing("none"@);
    assert(lowercase("none"@) =~= seq!['n', 'o', 'n', 'e']);
    assert(lowercase("none"@) != seq!['a', 'l', 'l']);
}

/// A selection holds no index twice.
pub proof fn lemma_selection_has_no_duplicates(v: Seq<usize>)
    requires
        ascending(v),
    ensures
        v.no_duplicates(),
{
    assert forall|i: int, j: int| 0 <= i < v.len() && 0 <= j < v.len() && i != j implies v[i]
        != v[j] by {
        if i < j {
            assert(v[i] < v[j]);
        } else {
            assert(v[j] < v[i]);
        }
    }
}

/// A selection is settled by the indices it holds: two selections with the
/// same indices are the same sequence.
pub proof fn lemma_selection_is_unique(v: Seq<usize>, w: Seq<usize>)
    requires
        ascending(v),
        ascending(w),
        index_set(v) == index_set(w),
    ensures
        v == w,
    decreases v.len(),
{
    if v.len() == 0 {
        if w.len() > 0 {
            assert(index_set(w).contains(w[0] as int));
            assert(index_set(v).contains(w[0] as int));
        }
        assert(v =~= w);
    } else {
        assert(index_set(v).contains(v.last() as int));
        let k = choose|k: int| 0 <= k < w.len() && w[k] as int == v.last() as int;
        assert(index_set(w).contains(w.last() as int));
        let j = choose|j: int| 0 <= j < v.len() && v[j] as int == w.last() as int;
        if k < w.len() - 1 {
            assert(w[k] < w.last());
            if j < v.len() - 1 {
                assert(v[j] < v.last());
            }
        }
        assert(v.last() == w.last());
        let a = v.drop_last();
        let b = w.drop_last();
        assert(index_set(a) =~= index_set(b)) by {
            assert forall|y: int| index_set(a).contains(y) implies index_set(b).contains(y) by {
                let i = choose|i: int| 0 <= i < a.len() && a[i] as int == y;
                assert(v[i] as int == y && v[i] < v.last());
                assert(index_set(v).contains(y));
                let m = choose|m: int| 0 <= m < w.len() && w[m] as int == y;
                assert(b[m] as int == y);
            }
            assert forall|y: int| index_set(b).contains(y) implies index_set(a).contains(y) by {
                let i = choose|i: int| 0 <= i < b.len() && b[i] as int == y;
                assert(w[i] as int == y && w[i] < w.last());
                assert(index_set(w).contains(y));
                let m = choose|m: int| 0 <= m < v.len() && v[m] as int == y;
                assert(a[m] as int == y);
            }
        }
        lemma_selection_is_unique(a, b);
        assert(v =~= a.push(v.last()));
        assert(w =~= b.push(w.last()));
    }
}

/// The decimal form of a one-based index in `1..=max` reads as that index.
proof fn lemma_index_reads_back(n: nat, max: nat)
    requires
        1 <= n <= max <= usize::MAX,
    ensures
        item_bounds(decimal_text(n), max) == Ok::<(nat, nat), SelectionFault>((n, n)),
        trim(decimal_text(n)) == decimal_text(n),
        forall|i: int| 0 <= i < decimal_text(n).len() ==> decimal_text(n)[i] != ',',
        is_digit(decimal_text(n)[0]),
        is_digit(decimal_text(n).last()),
{
    let d = decimal_text(n);
    lemma_decimal_text(n);
    assert forall|i: int| 0 <= i < d.len() implies d[i] != '-' && d[i] != ',' by {
        lemma_digit_is_plain(d[i]);
    }
    lemma_digit_is_plain(d[0]);
    lemma_digit_is_plain(d.last());
    lemma_trim_nothing(d);
    lemma_find_char_is(d, '-', d.len() as int);
}

/// The written form of a non-empty selection begins and ends with a digit,
/// and as a list it reads back as the selection.
proof fn lemma_list_reads_back(v: Seq<usize>, max: nat)
    requires
        v.len() > 0,
        is_selection_set(v, max),
        max <= usize::MAX,
    ensures
        canonical_list(v).len() > 0,
        is_digit(canonical_list(v)[0]),
        is_digit(canonical_list(v).last()),
        list_indices(canonical_list(v), max) == Ok::<Set<int>, SelectionFault>(index_set(v)),
    decreases v.len(),
{
    let n = (v[0] + 1) as nat;
    let d = decimal_text(n);
    let list = canonical_list(v);
    lemma_index_reads_back(n, max);
    if v.len() == 1 {
        lemma_find_char_is(list, ',', list.len() as int);
        assert(list.take(list.len() as int) =~= list);
        assert(span(n, n) =~= index_set(v)) by {
            assert(index_set(v).contains(v[0] as int));
        }
    } else {
        let rest = v.skip(1);
        assert forall|i: int, j: int| 0 <= i < j < rest.len() implies rest[i] < rest[j] by {
            assert(rest[i] == v[i + 1] && rest[j] == v[j + 1]);
        }
        assert forall|k: int| 0 <= k < rest.len() implies rest[k] < max by {
            assert(rest[k] == v[k + 1]);
        }
        lemma_list_reads_back(rest, max);
        let tail = canonical_list(rest);
        lemma_find_char_after(d, ',', tail);
        assert(list[0] == d[0]);
        assert(list.last() == tail.last());
        assert(span(n, n).union(index_set(rest)) =~= index_set(v)) by {
            assert forall|y: int| index_set(v).contains(y) implies span(n, n).union(
                index_set(rest),
            ).contains(y) by {
                let k = choose|k: int| 0 <= k < v.len() && v[k] as int == y;
                if k > 0 {
                    assert(rest[k - 1] as int == y);
                }
            }
            assert forall|y: int| span(n, n).union(index_set(rest)).contains(
                y,
            ) implies index_set(v).contains(y) by {
                if span(n, n).contains(y) {
                    assert(v[0] as int == y);
                } else {
                    let k = choose|k: int| 0 <= k < rest.len() && rest[k] as int == y;
                    assert(v[k + 1] as int == y);
                }
            }
        }
    }
}

/// Reading is idempotent: a selection written out in its canonical form
/// reads back as the very same selection.
pub proof fn lemma_canonical_text_reads_back(v: Seq<usize>, max: nat)
    requires
        is_selection_set(v, max),
        max <= usize::MAX,
    ensures
        selection(canonical_text(v), max) == Ok::<Set<int>, SelectionFault>(index_set(v)),
{
    if v.len() == 0 {
        lemma_none_selects_nothing(max);
        assert(index_set(v) =~= Set::<int>::empty());
    } else {
        let list = canonical_list(v);
        lemma_list_reads_back(v, max);
        lemma_digit_is_plain(list[0]);
        lemma_digit_is_plain(list.last());
        lemma_trim_nothing(list);
        assert(lowercase(list)[0] == list[0]);
        assert(seq!['a', 'l', 'l'][0] == 'a');
        assert(seq!['n', 'o', 'n', 'e'][0] == 'n');
    }
}

/// An index of zero, or one above `max`, is out of range.
pub proof fn lemma_index_outside_bounds(n: nat, max: nat)
    requires
        n == 0 || n > max,
        n <= usize::MAX,
    ensures
        one_based(decimal_text(n), max) == Err::<nat, SelectionFault>(
            SelectionFault::OutOfRange { value: n, max },
        ),
{
    lemma_decimal_text(n);
}

/// Input that holds nothing but whitespace is an empty input.
pub proof fn lemma_blank_input_is_empty(input: Seq<char>, max: nat)
    requires
        trim(input).len() == 0,
    ensures
        selection(input, max) == Err::<Set<int>, SelectionFault>(SelectionFault::EmptyInput),
{
    assert(lowercase(trim(input)).len() == 0);
    assert(seq!['a', 'l', 'l'].len() == 3);
    assert(seq!['n', 'o', 'n', 'e'].len() == 4);
}

/// A list with a blank item before its first comma has an empty item.
pub proof fn lemma_blank_item_is_empty(list: Seq<char>, max: nat)
    requires
        trim(list.take(find_char(list, ','))).len() == 0,
    ensures
        list_indices(list, max) == Err::<Set<int>, SelectionFault>(SelectionFault::EmptyItem),
{
}

/// Ranges are inclusive at both ends: the item `START-END`, both written in
/// decimal and both in `1..=max`, selects `START..=END` where `START` is not
/// above `END`, and is an invalid range where it is.
pub proof fn lemma_range_is_inclusive(start: nat, end: nat, max: nat)
    requires
        1 <= start <= max,
        1 <= end <= max,
        max <= usize::MAX,
    ensures
        ({
            let item = decimal_text(start) + seq!['-'] + decimal_text(end);
            item_bounds(item, max) == if start <= end {
                Ok::<(nat, nat), SelectionFault>((start, end))
            } else {
                Err::<(nat, nat), SelectionFault>(SelectionFault::InvalidRange { item })
            }
        }),
{
    let a = decimal_text(start);
    let b = decimal_text(end);
    let item = a + seq!['-'] + b;
    lemma_decimal_text(start);
    lemma_decimal_text(end);
    lemma_index_reads_back(start, max);
    lemma_index_reads_back(end, max);
    assert forall|i: int| 0 <= i < a.len() implies a[i] != '-' by {
        lemma_digit_is_plain(a[i]);
    }
    lemma_find_char_after(a, '-', b);
}

} // verus!
