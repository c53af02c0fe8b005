//! Columns, aggregate functions, and the parsers that resolve textual
//! column references.
//!
//! A column file is named `<name>.<type>.dsto`: exactly three dot-separated
//! parts, a known storable type, and a non-empty name of ASCII letters,
//! digits and underscores. A queried column is either a bare name or
//! `FN(name)` with `FN` one of `count`, `sum`, `avg` (case-insensitive;
//! any other function name degrades to `count`).

use vstd::prelude::*;
use crate::error::DbError;
use crate::value::{ColumnType, str_eq};

verus! {

/// Mathematical model of a [`Column`].
pub struct ColView {
    pub name: Seq<char>,
    pub ty: ColumnType,
}

#[derive(Debug, Clone)]
pub struct Column {
    pub name: String,
    pub ty: ColumnType,
}

impl View for Column {
    type V = ColView;

    open spec fn view(&self) -> ColView {
        ColView { name: self.name@, ty: self.ty }
    }
}

impl PartialEq for Column {
    /// Equality uses both the name and the type.
    fn eq(&self, other: &Self) -> (r: bool) {
        self.name.eq(&other.name) && self.ty == other.ty
    }
}

impl Eq for Column {}

impl vstd::std_specs::cmp::PartialEqSpecImpl for Column {
    open spec fn obeys_eq_spec() -> bool {
        true
    }

    open spec fn eq_spec(&self, other: &Self) -> bool {
        self@ == other@
    }
}

impl Column {
    pub fn new(name: String, ty: ColumnType) -> (r: Self)
        ensures
            r@ == (ColView { name: name@, ty }),
    {
        Self { name, ty }
    }

    /// On-disk payload width of this column's type.
    pub fn size(&self) -> (n: usize)
        ensures
            n == self@.ty.spec_size(),
    {
        self.ty.size()
    }

    /// A copy whose mathematical value equals this one's.
    pub fn duplicate(&self) -> (r: Column)
        ensures
            r@ == self@,
    {
        Column { name: self.name.clone(), ty: self.ty }
    }

    /// The base of this column's file name: `<name>.<type>`.
    pub open spec fn spec_file_stem(c: ColView) -> Seq<char> {
        c.name + "."@ + c.ty.spec_name()
    }

    pub fn file_stem(&self) -> (r: String)
        ensures
            r@ == Column::spec_file_stem(self@),
    {
        let mut s = self.name.clone();
        s.append(".");
        let ty_name = self.ty.name();
        s.append(ty_name.as_str());
        s
    }
}

/// Appends the on-disk extension: `<file_name>.dsto`.
pub fn add_extension(file_name: &str) -> (r: String)
    ensures
        r@ == file_name@ + ".dsto"@,
{
    let mut s = file_name.to_owned();
    s.append(".dsto");
    s
}

/// Size in bytes of the row-id and timestamp pair that prefixes every
/// index and column file entry.
pub fn index_and_timestamp_size() -> (n: usize)
    ensures
        n == 16,
{
    16
}

#[derive(Debug, Clone, Copy, PartialEq, Eq, Structural, Hash)]
pub enum Aggregate {
    Count,
    Sum,
    Avg,
}

/// ASCII lowercasing of one character; anything but `A`..`Z` is kept.
pub open spec fn lower_char(c: char) -> char {
    if 65 <= (c as u32) && (c as u32) <= 90 {
        (((c as u32) + 32) as u8) as char
    } else {
        c
    }
}

/// Pointwise ASCII lowercasing.
pub open spec fn spec_lower(s: Seq<char>) -> Seq<char> {
    s.map_values(|c: char| lower_char(c))
}

/// Executable case-insensitive comparison, ASCII only.
pub fn str_ieq(a: &str, b: &str) -> (r: bool)
    ensures
        r == (spec_lower(a@) == spec_lower(b@)),
{
    let n: usize = a.unicode_len();
    let m: usize = b.unicode_len();
    if n != m {
        proof {
            assert(spec_lower(a@).len() == a@.len());
            assert(spec_lower(b@).len() == b@.len());
        }
        return false;
    }
    let mut i: usize = 0;
    while i < n
        invariant
            n == a@.len(),
            n == b@.len(),
            0 <= i <= n,
            forall|k: int| 0 <= k < i ==> lower_char(a@[k]) == lower_char(b@[k]),
        decreases n - i,
    {
        let ca = a.get_char(i);
        let cb = b.get_char(i);
        let xa: u32 = ca as u32;
        let xb: u32 = cb as u32;
        let la: char = if 65 <= xa && xa <= 90 {
            ((xa + 32) as u8) as char
        } else {
            ca
        };
        let lb: char = if 65 <= xb && xb <= 90 {
            ((xb + 32) as u8) as char
        } else {
            cb
        };
        if la != lb {
            proof {
                assert(spec_lower(a@)[i as int] != spec_lower(b@)[i as int]);
            }
            return false;
        }
        i += 1;
    }
    proof {
        assert(spec_lower(a@) =~= spec_lower(b@));
    }
    true
}

impl Aggregate {
    /// The aggregate a select token names, compared case-insensitively;
    /// a name that is none of `count`, `sum`, `avg` degrades to `Count`.
    pub open spec fn spec_parse(s: Seq<char>) -> Aggregate {
        if spec_lower(s) == spec_lower("count"@) {
            Aggregate::Count
        } else if spec_lower(s) == spec_lower("sum"@) {
            Aggregate::Sum
        } else if spec_lower(s) == spec_lower("avg"@) {
            Aggregate::Avg
        } else {
            Aggregate::Count
        }
    }

    pub fn parse(s: &str) -> (r: Aggregate)
        ensures
            r == Aggregate::spec_parse(s@),
    {
        if str_ieq(s, "count") {
            Aggregate::Count
        } else if str_ieq(s, "sum") {
            Aggregate::Sum
        } else if str_ieq(s, "avg") {
            Aggregate::Avg
        } else {
            Aggregate::Count
        }
    }

    /// The lowercase name of this aggregate.
    pub open spec fn spec_name(self) -> Seq<char> {
        match self {
            Aggregate::Count => "count"@,
            Aggregate::Sum => "sum"@,
            Aggregate::Avg => "avg"@,
        }
    }

    pub fn name(&self) -> (r: String)
        ensures
            r@ == self.spec_name(),
    {
        match self {
            Aggregate::Count => String::from_str("count"),
            Aggregate::Sum => String::from_str("sum"),
            Aggregate::Avg => String::from_str("avg"),
        }
    }
}

/// An aggregate function applied to a column.
#[derive(Debug, Clone)]
pub struct AggregateColumn(pub Aggregate, pub Column);

impl View for AggregateColumn {
    type V = (Aggregate, ColView);

    open spec fn view(&self) -> (Aggregate, ColView) {
        (self.0, self.1@)
    }
}

impl PartialEq for AggregateColumn {
    fn eq(&self, other: &Self) -> (r: bool) {
        self.0 == other.0 && self.1.eq(&other.1)
    }
}

impl Eq for AggregateColumn {}

impl vstd::std_specs::cmp::PartialEqSpecImpl for AggregateColumn {
    open spec fn obeys_eq_spec() -> bool {
        true
    }

    open spec fn eq_spec(&self, other: &Self) -> bool {
        self@ == other@
    }
}

impl AggregateColumn {
    pub fn duplicate(&self) -> (r: AggregateColumn)
        ensures
            r@ == self@,
    {
        AggregateColumn(self.0, self.1.duplicate())
    }

    /// The wire name of this aggregate column: `fn(column)`.
    pub open spec fn spec_wire_name(v: (Aggregate, ColView)) -> Seq<char> {
        v.0.spec_name() + "("@ + v.1.name + ")"@
    }

    pub fn wire_name(&self) -> (r: String)
        ensures
            r@ == AggregateColumn::spec_wire_name(self@),
    {
        let mut s = self.0.name();
        s.append("(");
        s.append(self.1.name.as_str());
        s.append(")");
        s
    }
}

/// Index of the first occurrence of `c` in `s`, or `-1`.
pub open spec fn spec_first_index(s: Seq<char>, c: char) -> int
    decreases s.len(),
{
    if s.len() == 0 {
        -1
    } else if s[0] == c {
        0
    } else {
        let r = spec_first_index(s.drop_first(), c);
        if r < 0 {
            -1
        } else {
            r + 1
        }
    }
}

/// Where the first `i` characters differ from `c`, the first occurrence
/// of `c` is at `i` (when present) or absent (when `i` is the length).
pub proof fn lemma_first_index_at(s: Seq<char>, c: char, i: int)
    requires
        0 <= i <= s.len(),
        forall|k: int| 0 <= k < i ==> s[k] != c,
        i < s.len() ==> s[i] == c,
    ensures
        i < s.len() ==> spec_first_index(s, c) == i,
        i == s.len() ==> spec_first_index(s, c) == -1,
    decreases i,
{
    if s.len() == 0 {
    } else if i == 0 {
    } else {
        lemma_first_index_at(s.drop_first(), c, i - 1);
    }
}

/// `s` split on `c`: the (possibly empty) segments between occurrences.
pub open spec fn spec_split(s: Seq<char>, c: char) -> Seq<Seq<char>>
    decreases s.len(),
{
    let i = spec_first_index(s, c);
    if i < 0 || i >= s.len() {
        seq![s]
    } else {
        seq![s.subrange(0, i)] + spec_split(s.subrange(i + 1, s.len() as int), c)
    }
}

/// Splitting never yields an empty list of segments.
pub proof fn lemma_split_len(s: Seq<char>, c: char)
    ensures
        spec_split(s, c).len() >= 1,
    decreases s.len(),
{
    let i = spec_first_index(s, c);
    if i >= 0 {
        lemma_first_index_in_range(s, c);
    }
}

/// The first occurrence, when there is one, lies inside the sequence.
pub proof fn lemma_first_index_in_range(s: Seq<char>, c: char)
    ensures
        spec_first_index(s, c) >= 0 ==> {
            &&& spec_first_index(s, c) < s.len()
            &&& s[spec_first_index(s, c)] == c
        },
    decreases s.len(),
{
    if s.len() > 0 && s[0] != c {
        lemma_first_index_in_range(s.drop_first(), c);
    }
}

/// Whether `c` may appear in a column name.
pub open spec fn is_ident_char(c: char) -> bool {
    ||| (48 <= (c as u32) && (c as u32) <= 57)
    ||| (65 <= (c as u32) && (c as u32) <= 90)
    ||| (97 <= (c as u32) && (c as u32) <= 122)
    ||| (c as u32) == 95
}

/// What a column file name parses to: the column name and type of a
/// well-formed `<name>.<type>.dsto` file, and nothing otherwise.
pub open spec fn spec_parse_column_file_name(s: Seq<char>) -> Option<(Seq<char>, ColumnType)> {
    let parts = spec_split(s, '.');
    if parts.len() != 3 {
        None
    } else if parts[2] != "dsto"@ {
        None
    } else {
        match ColumnType::spec_parse(parts[1]) {
            None => None,
            Some(ty) => if parts[0].len() > 0 && (forall|k: int|
                0 <= k < parts[0].len() ==> is_ident_char(#[trigger] parts[0][k])) {
                Some((parts[0], ty))
            } else {
                None
            },
        }
    }
}

/// First index at or after `from` where `s` holds `c`, or the length.
fn find_char_from(s: &str, from: usize, c: char) -> (r: usize)
    requires
        from <= s@.len(),
    ensures
        from <= r <= s@.len(),
        forall|k: int| from <= k < r ==> s@[k] != c,
        r < s@.len() ==> s@[r as int] == c,
{
    let n: usize = s.unicode_len();
    let mut i: usize = from;
    while i < n && s.get_char(i) != c
        invariant
            n == s@.len(),
            from <= i <= n,
            forall|k: int| from <= k < i ==> s@[k] != c,
        decreases n - i,
    {
        i += 1;
    }
    i
}

/// Splitting a sequence with dots exactly at `d1 < d2` yields the three
/// segments around them.
proof fn lemma_split_three(s: Seq<char>, d1: int, d2: int)
    requires
        0 <= d1 < d2 < s.len(),
        s[d1] == '.',
        s[d2] == '.',
        forall|k: int| 0 <= k < s.len() && k != d1 && k != d2 ==> s[k] != '.',
    ensures
        spec_split(s, '.') =~= seq![
            s.subrange(0, d1),
            s.subrange(d1 + 1, d2),
            s.subrange(d2 + 1, s.len() as int),
        ],
{
    lemma_first_index_at(s, '.', d1);
    let t1 = s.subrange(d1 + 1, s.len() as int);
    assert(forall|k: int| 0 <= k < t1.len() ==> #[trigger] t1[k] == s[k + d1 + 1]);
    lemma_first_index_at(t1, '.', d2 - d1 - 1);
    let t2 = t1.subrange(d2 - d1, t1.len() as int);
    assert(t2 =~= s.subrange(d2 + 1, s.len() as int));
    assert(forall|k: int| 0 <= k < t2.len() ==> #[trigger] t2[k] == s[k + d2 + 1]);
    lemma_first_index_at(t2, '.', t2.len() as int);
    assert(t1.subrange(0, d2 - d1 - 1) =~= s.subrange(d1 + 1, d2));
    assert(spec_split(t2, '.') =~= seq![t2]);
    assert(spec_split(t1, '.') =~= seq![s.subrange(d1 + 1, d2), s.subrange(d2 + 1, s.len() as int)]);
}

/// Parses a column file name. A well-formed name has exactly three
/// dot-separated parts `name.type.dsto`, a storable `type`, and a
/// non-empty `name` of letters, digits and underscores.
#[verifier::loop_isolation(false)]
pub fn parse_column_file_name(file_name: &str) -> (r: Option<(String, ColumnType)>)
    ensures
        r is Some <==> spec_parse_column_file_name(file_name@) is Some,
        r matches Some((name, ty)) ==> spec_parse_column_file_name(file_name@) == Some(
            (name@, ty),
        ),
{
    let n: usize = file_name.unicode_len();
    let d1: usize = find_char_from(file_name, 0, '.');
    if d1 == n {
        proof {
            lemma_first_index_at(file_name@, '.', n as int);
        }
        return None;
    }
    let d2: usize = find_char_from(file_name, d1 + 1, '.');
    if d2 == n {
        proof {
            let s = file_name@;
            lemma_first_index_at(s, '.', d1 as int);
            let t1 = s.subrange(d1 + 1, n as int);
            assert(forall|k: int| 0 <= k < t1.len() ==> #[trigger] t1[k] == s[k + d1 + 1]);
            lemma_first_index_at(t1, '.', t1.len() as int);
            assert(spec_split(t1, '.') =~= seq![t1]);
            assert(spec_split(s, '.') =~= seq![s.subrange(0, d1 as int)] + seq![t1]);
            assert(spec_split(s, '.').len() == 2);
        }
        return None;
    }
    let d3: usize = find_char_from(file_name, d2 + 1, '.');
    if d3 < n {
        proof {
            let s = file_name@;
            lemma_first_index_at(s, '.', d1 as int);
            let t1 = s.subrange(d1 + 1, n as int);
            assert(forall|k: int| 0 <= k < t1.len() ==> #[trigger] t1[k] == s[k + d1 + 1]);
            lemma_first_index_at(t1, '.', d2 - d1 - 1);
            let t2 = t1.subrange(d2 - d1, t1.len() as int);
            assert(t2 =~= s.subrange(d2 + 1, n as int));
            assert(forall|k: int| 0 <= k < t2.len() ==> #[trigger] t2[k] == s[k + d2 + 1]);
            lemma_first_index_at(t2, '.', d3 - d2 - 1);
            let t3 = t2.subrange(d3 - d2, t2.len() as int);
            lemma_split_len(t3, '.');
            assert(spec_split(t2, '.') =~= seq![t2.subrange(0, d3 - d2 - 1)] + spec_split(t3, '.'));
            assert(spec_split(t1, '.') =~= seq![t1.subrange(0, d2 - d1 - 1)] + spec_split(t2, '.'));
            assert(spec_split(s, '.') =~= seq![s.subrange(0, d1 as int)] + spec_split(t1, '.'));
            assert(spec_split(s, '.').len() >= 4);
        }
        return None;
    }
    proof {
        lemma_split_three(file_name@, d1 as int, d2 as int);
    }
    let name_part: &str = file_name.substring_char(0, d1);
    let type_part: &str = file_name.substring_char(d1 + 1, d2);
    let ext_part: &str = file_name.substring_char(d2 + 1, n);
    if !str_eq(ext_part, "dsto") {
        return None;
    }
    let ty_opt = ColumnType::parse(type_part);
    let ty = match ty_opt {
        Some(ty) => ty,
        None => {
            return None;
        },
    };
    // The name must be a non-empty identifier.
    if d1 == 0 {
        return None;
    }
    let mut i: usize = 0;
    while i < d1
        invariant
            d1 <= file_name@.len(),
            name_part@ == file_name@.subrange(0, d1 as int),
            0 <= i <= d1,
            forall|k: int| 0 <= k < i ==> is_ident_char(#[trigger] name_part@[k]),
        decreases d1 - i,
    {
        let c = name_part.get_char(i);
        let x: u32 = c as u32;
        let ok: bool = (48 <= x && x <= 57) || (65 <= x && x <= 90) || (97 <= x && x <= 122) || x
            == 95;
        if !ok {
            return None;
        }
        i += 1;
    }
    Some((name_part.to_owned(), ty))
}

/// Whether `c` is trimmed from the ends of a select token.
pub open spec fn is_space_char(c: char) -> bool {
    c == ' ' || c == '\t' || c == '\n' || c == '\r'
}

pub open spec fn spec_trim_start(s: Seq<char>) -> Seq<char>
    decreases s.len(),
{
    if s.len() == 0 {
        s
    } else if is_space_char(s[0]) {
        spec_trim_start(s.drop_first())
    } else {
        s
    }
}

pub open spec fn spec_trim_end(s: Seq<char>) -> Seq<char>
    decreases s.len(),
{
    if s.len() == 0 {
        s
    } else if is_space_char(s[s.len() - 1]) {
        spec_trim_end(s.drop_last())
    } else {
        s
    }
}

/// `s` without leading and trailing spaces.
pub open spec fn spec_trim(s: Seq<char>) -> Seq<char> {
    spec_trim_end(spec_trim_start(s))
}

proof fn lemma_trim_start_at(s: Seq<char>, a: int)
    requires
        0 <= a <= s.len(),
        forall|k: int| 0 <= k < a ==> is_space_char(s[k]),
        a < s.len() ==> !is_space_char(s[a]),
    ensures
        spec_trim_start(s) == s.subrange(a, s.len() as int),
    decreases a,
{
    if a == 0 {
        assert(s.subrange(0, s.len() as int) =~= s);
    } else {
        let t = s.drop_first();
        assert(forall|k: int| 0 <= k < a - 1 ==> is_space_char(#[trigger] t[k]));
        lemma_trim_start_at(t, a - 1);
        assert(t.subrange(a - 1, t.len() as int) =~= s.subrange(a, s.len() as int));
    }
}

proof fn lemma_trim_end_at(s: Seq<char>, b: int)
    requires
        0 <= b <= s.len(),
        forall|k: int| b <= k < s.len() ==> is_space_char(s[k]),
        b > 0 ==> !is_space_char(s[b - 1]),
    ensures
        spec_trim_end(s) == s.subrange(0, b),
    decreases s.len() - b,
{
    if b == s.len() {
        assert(s.subrange(0, s.len() as int) =~= s);
        if s.len() > 0 {
            assert(!is_space_char(s[s.len() - 1]));
        }
    } else {
        let t = s.drop_last();
        assert(forall|k: int| b <= k < t.len() ==> is_space_char(#[trigger] t[k]));
        lemma_trim_end_at(t, b);
        assert(t.subrange(0, b) =~= s.subrange(0, b));
    }
}

fn is_space(c: char) -> (r: bool)
    ensures
        r == is_space_char(c),
{
    c == ' ' || c == '\t' || c == '\n' || c == '\r'
}

/// `s` without leading and trailing spaces, as an owned string.
#[verifier::loop_isolation(false)]
pub fn trim_chars(s: &str) -> (r: String)
    ensures
        r@ == spec_trim(s@),
{
    let n: usize = s.unicode_len();
    let mut a: usize = 0;
    while a < n && is_space(s.get_char(a))
        invariant
            0 <= a <= n,
            forall|k: int| 0 <= k < a ==> is_space_char(s@[k]),
        decreases n - a,
    {
        a += 1;
    }
    let mut b: usize = n;
    while b > a && is_space(s.get_char(b - 1))
        invariant
            a <= b <= n,
            forall|k: int| b <= k < n ==> is_space_char(s@[k]),
        decreases b,
    {
        b -= 1;
    }
    let t = s.substring_char(a, b);
    proof {
        lemma_trim_start_at(s@, a as int);
        let mid = s@.subrange(a as int, n as int);
        assert(forall|k: int| 0 <= k < mid.len() ==> #[trigger] mid[k] == s@[k + a]);
        lemma_trim_end_at(mid, b - a);
        assert(mid.subrange(0, b - a) =~= s@.subrange(a as int, b as int));
    }
    t.to_owned()
}

/// What a select token parses to: `FN(name)` yields the aggregate and the
/// trimmed name between the first parentheses, provided both parts are
/// non-empty; any other shape is a bare column reference, trimmed.
pub open spec fn spec_try_parse_queried(s: Seq<char>) -> (Option<Aggregate>, Seq<char>) {
    let t = spec_trim(s);
    let o = spec_first_index(t, '(');
    let c = spec_first_index(t, ')');
    if 0 <= o && 0 <= c && o < c {
        let f = spec_trim(t.subrange(0, o));
        let col = spec_trim(t.subrange(o + 1, c));
        if f.len() > 0 && col.len() > 0 {
            (Some(Aggregate::spec_parse(f)), col)
        } else {
            (None, t)
        }
    } else {
        (None, t)
    }
}

#[verifier::loop_isolation(false)]
pub fn try_parse_queried_column(queried_column: &str) -> (r: (Option<Aggregate>, String))
    ensures
        ({
            let (agg, name) = spec_try_parse_queried(queried_column@);
            r.0 == agg && r.1@ == name
        }),
{
    let t = trim_chars(queried_column);
    let tn: usize = t.unicode_len();
    let o: usize = find_char_from(t.as_str(), 0, '(');
    let c: usize = find_char_from(t.as_str(), 0, ')');
    proof {
        lemma_first_index_at(t@, '(', o as int);
        lemma_first_index_at(t@, ')', c as int);
    }
    if o < tn && c < tn && o < c {
        let f_raw = t.as_str().substring_char(0, o);
        let f = trim_chars(f_raw);
        let col_raw = t.as_str().substring_char(o + 1, c);
        let col = trim_chars(col_raw);
        if f.as_str().unicode_len() > 0 && col.as_str().unicode_len() > 0 {
            let agg = Aggregate::parse(f.as_str());
            (Some(agg), col)
        } else {
            (None, t)
        }
    } else {
        (None, t)
    }
}

/// The views of a column list.
pub open spec fn col_views(s: Seq<Column>) -> Seq<ColView> {
    s.map_values(|c: Column| c@)
}

/// The views of a list of strings.
pub open spec fn name_views(s: Seq<String>) -> Seq<Seq<char>> {
    s.map_values(|x: String| x@)
}

/// The views of a list of aggregate columns.
pub open spec fn agg_views(s: Seq<AggregateColumn>) -> Seq<(Aggregate, ColView)> {
    s.map_values(|a: AggregateColumn| a@)
}

/// The first column of that name, if any.
pub open spec fn spec_find_column(cols: Seq<ColView>, name: Seq<char>) -> Option<ColView>
    decreases cols.len(),
{
    if cols.len() == 0 {
        None
    } else if cols[0].name == name {
        Some(cols[0])
    } else {
        spec_find_column(cols.drop_first(), name)
    }
}

pub proof fn lemma_find_column_at(cols: Seq<ColView>, name: Seq<char>, i: int)
    requires
        0 <= i <= cols.len(),
        forall|k: int| 0 <= k < i ==> #[trigger] cols[k].name != name,
        i < cols.len() ==> cols[i].name == name,
    ensures
        i < cols.len() ==> spec_find_column(cols, name) == Some(cols[i]),
        i == cols.len() ==> spec_find_column(cols, name) is None,
    decreases i,
{
    if cols.len() == 0 {
    } else if i == 0 {
    } else {
        lemma_find_column_at(cols.drop_first(), name, i - 1);
    }
}

/// The first column named `column`, duplicated, or nothing.
#[verifier::loop_isolation(false)]
fn get_column(available_columns: &Vec<Column>, column: &str) -> (r: Option<Column>)
    ensures
        match spec_find_column(col_views(available_columns@), column@) {
            Some(cv) => r matches Some(c) && c@ == cv,
            None => r is None,
        },
{
    let n: usize = available_columns.len();
    let mut i: usize = 0;
    while i < n
        invariant
            0 <= i <= n,
            forall|k: int|
                0 <= k < i ==> #[trigger] col_views(available_columns@)[k].name != column@,
        decreases n - i,
    {
        if str_eq(available_columns[i].name.as_str(), column) {
            proof {
                lemma_find_column_at(col_views(available_columns@), column@, i as int);
            }
            return Some(available_columns[i].duplicate());
        }
        i += 1;
    }
    proof {
        lemma_find_column_at(col_views(available_columns@), column@, n as int);
    }
    None
}

/// Resolution of plain column names against a table's columns: every name
/// must match an existing column exactly, else nothing resolves.
pub open spec fn spec_validate_columns(avail: Seq<ColView>, names: Seq<Seq<char>>) -> Option<
    Seq<ColView>,
>
    decreases names.len(),
{
    if names.len() == 0 {
        Some(Seq::<ColView>::empty())
    } else {
        match spec_find_column(avail, names[0]) {
            None => None,
            Some(cv) => match spec_validate_columns(avail, names.drop_first()) {
                None => None,
                Some(rest) => Some(seq![cv] + rest),
            },
        }
    }
}

/// Resolves each name to its column; fails with `UnknownColumn` when any
/// name matches no column.
#[verifier::loop_isolation(false)]
pub fn parse_and_validate_columns(available_columns: &Vec<Column>, columns: &Vec<String>) -> (r:
    Result<Vec<Column>, DbError>)
    ensures
        match r {
            Ok(cols) => spec_validate_columns(
                col_views(available_columns@),
                name_views(columns@),
            ) == Some(col_views(cols@)),
            Err(e) => spec_validate_columns(col_views(available_columns@), name_views(columns@))
                is None && e is UnknownColumn,
        },
{
    let ghost av = col_views(available_columns@);
    let ghost ns = name_views(columns@);
    let n: usize = columns.len();
    let mut out: Vec<Column> = Vec::new();
    let mut i: usize = 0;
    proof {
        assert(ns.subrange(0, n as int) =~= ns);
        assert(col_views(out@) =~= Seq::<ColView>::empty());
        match spec_validate_columns(av, ns) {
            Some(rest) => {
                assert(Seq::<ColView>::empty() + rest =~= rest);
            },
            None => {},
        }
    }
    while i < n
        invariant
            0 <= i <= n,
            spec_validate_columns(av, ns) == (match spec_validate_columns(
                av,
                ns.subrange(i as int, n as int),
            ) {
                None => None::<Seq<ColView>>,
                Some(rest) => Some(col_views(out@) + rest),
            }),
        decreases n - i,
    {
        proof {
            assert(ns.subrange(i as int, n as int)[0] == ns[i as int]);
            assert(ns.subrange(i as int, n as int).drop_first() =~= ns.subrange(
                i + 1,
                n as int,
            ));
        }
        match get_column(available_columns, columns[i].as_str()) {
            None => {
                return Err(DbError::UnknownColumn);
            },
            Some(c) => {
                let ghost prev = col_views(out@);
                let ghost cv = c@;
                out.push(c);
                proof {
                    assert(col_views(out@) =~= prev + seq![cv]);
                    match spec_validate_columns(av, ns.subrange(i + 1, n as int)) {
                        Some(rest) => {
                            assert((prev + (seq![cv] + rest)) =~= (col_views(out@) + rest));
                        },
                        None => {},
                    }
                }
            },
        }
        i += 1;
    }
    proof {
        assert(ns.subrange(n as int, n as int) =~= Seq::<Seq<char>>::empty());
        assert(col_views(out@) + Seq::<ColView>::empty() =~= col_views(out@));
    }
    Ok(out)
}

/// Resolution of select tokens: each token is parsed as `FN(name)` or a
/// bare name, the referenced column must exist, and a column wrapped in
/// an aggregate is also projected so the executor reads it.
pub open spec fn spec_parse_queried_columns(avail: Seq<ColView>, queried: Seq<Seq<char>>) -> Option<
    (Seq<ColView>, Seq<(Aggregate, ColView)>),
>
    decreases queried.len(),
{
    if queried.len() == 0 {
        Some((Seq::<ColView>::empty(), Seq::<(Aggregate, ColView)>::empty()))
    } else {
        let pr = spec_try_parse_queried(queried[0]);
        match spec_find_column(avail, pr.1) {
            None => None,
            Some(cv) => match spec_parse_queried_columns(avail, queried.drop_first()) {
                None => None,
                Some(pair) => match pr.0 {
                    Some(a) => Some((seq![cv] + pair.0, seq![(a, cv)] + pair.1)),
                    None => Some((seq![cv] + pair.0, pair.1)),
                },
            },
        }
    }
}

/// Parses and resolves the select list; fails with `UnknownColumn` when a
/// referenced column does not exist.
#[verifier::loop_isolation(false)]
pub fn parse_and_validate_queried_columns(
    available_columns: &Vec<Column>,
    queried_columns: &Vec<String>,
) -> (r: Result<(Vec<Column>, Vec<AggregateColumn>), DbError>)
    ensures
        match r {
            Ok(pair) => spec_parse_queried_columns(
                col_views(available_columns@),
                name_views(queried_columns@),
            ) == Some((col_views(pair.0@), agg_views(pair.1@))),
            Err(e) => spec_parse_queried_columns(
                col_views(available_columns@),
                name_views(queried_columns@),
            ) is None && e is UnknownColumn,
        },
{
    let ghost av = col_views(available_columns@);
    let ghost ns = name_views(queried_columns@);
    let n: usize = queried_columns.len();
    let mut cols: Vec<Column> = Vec::new();
    let mut aggs: Vec<AggregateColumn> = Vec::new();
    let mut i: usize = 0;
    proof {
        assert(ns.subrange(0, n as int) =~= ns);
        assert(col_views(cols@) =~= Seq::<ColView>::empty());
        assert(agg_views(aggs@) =~= Seq::<(Aggregate, ColView)>::empty());
        match spec_parse_queried_columns(av, ns) {
            Some(pair) => {
                assert(Seq::<ColView>::empty() + pair.0 =~= pair.0);
                assert(Seq::<(Aggregate, ColView)>::empty() + pair.1 =~= pair.1);
            },
            None => {},
        }
    }
    while i < n
        invariant
            0 <= i <= n,
            spec_parse_queried_columns(av, ns) == (match spec_parse_queried_columns(
                av,
                ns.subrange(i as int, n as int),
            ) {
                None => None::<(Seq<ColView>, Seq<(Aggregate, ColView)>)>,
                Some(pair) => Some((col_views(cols@) + pair.0, agg_views(aggs@) + pair.1)),
            }),
        decreases n - i,
    {
        proof {
            assert(ns.subrange(i as int, n as int)[0] == ns[i as int]);
            assert(ns.subrange(i as int, n as int).drop_first() =~= ns.subrange(
                i + 1,
                n as int,
            ));
        }
        let (agg, name) = try_parse_queried_column(queried_columns[i].as_str());
        match get_column(available_columns, name.as_str()) {
            None => {
                return Err(DbError::UnknownColumn);
            },
            Some(c) => {
                let ghost prev_cols = col_views(cols@);
                let ghost prev_aggs = agg_views(aggs@);
                let ghost cv = c@;
                match agg {
                    Some(a) => {
                        let ac = AggregateColumn(a, c.duplicate());
                        cols.push(c);
                        aggs.push(ac);
                        proof {
                            assert(col_views(cols@) =~= prev_cols + seq![cv]);
                            assert(agg_views(aggs@) =~= prev_aggs + seq![(a, cv)]);
                            match spec_parse_queried_columns(av, ns.subrange(i + 1, n as int)) {
                                Some(pair) => {
                                    assert((prev_cols + (seq![cv] + pair.0)) =~= (col_views(
                                        cols@,
                                    ) + pair.0));
                                    assert((prev_aggs + (seq![(a, cv)] + pair.1)) =~= (agg_views(
                                        aggs@,
                                    ) + pair.1));
                                },
                                None => {},
                            }
                        }
                    },
                    None => {
                        cols.push(c);
                        proof {
                            assert(col_views(cols@) =~= prev_cols + seq![cv]);
                            match spec_parse_queried_columns(av, ns.subrange(i + 1, n as int)) {
                                Some(pair) => {
                                    assert((prev_cols + (seq![cv] + pair.0)) =~= (col_views(
                                        cols@,
                                    ) + pair.0));
                                },
                                None => {},
                            }
                        }
                    },
                }
            },
        }
        i += 1;
    }
    proof {
        assert(ns.subrange(n as int, n as int) =~= Seq::<Seq<char>>::empty());
        assert(col_views(cols@) + Seq::<ColView>::empty() =~= col_views(cols@));
        assert(agg_views(aggs@) + Seq::<(Aggregate, ColView)>::empty() =~= agg_views(aggs@));
    }
    Ok((cols, aggs))
}

/// The columns that a directory listing of file names describes, in
/// listing order; names that are not well-formed column files (among them
/// the `.index.dsto` and `.stats.dsto` metadata files) are skipped.
pub open spec fn spec_columns_from_names(names: Seq<Seq<char>>) -> Seq<ColView>
    decreases names.len(),
{
    if names.len() == 0 {
        Seq::<ColView>::empty()
    } else {
        let rest = spec_columns_from_names(names.drop_first());
        match spec_parse_column_file_name(names[0]) {
            Some(pr) => seq![ColView { name: pr.0, ty: pr.1 }] + rest,
            None => rest,
        }
    }
}

/// Reconstructs a table's column list from its directory's file names.
#[verifier::loop_isolation(false)]
pub fn columns_from_file_names(file_names: &Vec<String>) -> (r: Vec<Column>)
    ensures
        col_views(r@) == spec_columns_from_names(name_views(file_names@)),
{
    let ghost ns = name_views(file_names@);
    let n: usize = file_names.len();
    let mut out: Vec<Column> = Vec::new();
    let mut i: usize = 0;
    proof {
        assert(ns.subrange(0, n as int) =~= ns);
        assert(col_views(out@) =~= Seq::<ColView>::empty());
        assert(Seq::<ColView>::empty() + spec_columns_from_names(ns) =~= spec_columns_from_names(
            ns,
        ));
    }
    while i < n
        invariant
            0 <= i <= n,
            spec_columns_from_names(ns) == col_views(out@) + spec_columns_from_names(
                ns.subrange(i as int, n as int),
            ),
        decreases n - i,
    {
        proof {
            assert(ns.subrange(i as int, n as int)[0] == ns[i as int]);
            assert(ns.subrange(i as int, n as int).drop_first() =~= ns.subrange(
                i + 1,
                n as int,
            ));
        }
        let ghost prev = col_views(out@);
        match parse_column_file_name(file_names[i].as_str()) {
            Some((name, ty)) => {
                let ghost nv = name@;
                out.push(Column::new(name, ty));
                proof {
                    assert(col_views(out@) =~= prev + seq![ColView { name: nv, ty }]);
                    assert((prev + seq![ColView { name: nv, ty }]) + spec_columns_from_names(
                        ns.subrange(i + 1, n as int),
                    ) =~= prev + (seq![ColView { name: nv, ty }] + spec_columns_from_names(
                        ns.subrange(i + 1, n as int),
                    )));
                }
            },
            None => {},
        }
        i += 1;
    }
    proof {
        assert(ns.subrange(n as int, n as int) =~= Seq::<Seq<char>>::empty());
        assert(col_views(out@) + Seq::<ColView>::empty() =~= col_views(out@));
    }
    out
}


/// The position of the first column of that name, or `-1`.
pub open spec fn spec_col_position(cols: Seq<ColView>, name: Seq<char>) -> int
    decreases cols.len(),
{
    if cols.len() == 0 {
        -1
    } else if cols[0].name == name {
        0
    } else {
        let r = spec_col_position(cols.drop_first(), name);
        if r < 0 {
            -1
        } else {
            r + 1
        }
    }
}

pub proof fn lemma_col_position_at(cols: Seq<ColView>, name: Seq<char>, i: int)
    requires
        0 <= i <= cols.len(),
        forall|k: int| 0 <= k < i ==> (#[trigger] cols[k]).name != name,
        i < cols.len() ==> cols[i].name == name,
    ensures
        i < cols.len() ==> spec_col_position(cols, name) == i,
        i == cols.len() ==> spec_col_position(cols, name) == -1,
    decreases i,
{
    if cols.len() == 0 {
    } else if i == 0 {
    } else {
        lemma_col_position_at(cols.drop_first(), name, i - 1);
    }
}

/// Finding a column and finding its position agree.
pub proof fn lemma_find_is_position(cols: Seq<ColView>, name: Seq<char>)
    ensures
        spec_find_column(cols, name) is Some <==> 0 <= spec_col_position(cols, name)
            < cols.len(),
        spec_find_column(cols, name) matches Some(cv) ==> cv == cols[spec_col_position(
            cols,
            name,
        )] && cv.name == name && forall|k: int|
            0 <= k < spec_col_position(cols, name) ==> (#[trigger] cols[k]).name != name,
    decreases cols.len(),
{
    if cols.len() > 0 && cols[0].name != name {
        let rest = cols.drop_first();
        lemma_find_is_position(rest, name);
        if spec_find_column(cols, name) is Some {
            let p = spec_col_position(rest, name);
            assert(cols[p + 1] == rest[p]);
            assert forall|k: int| 0 <= k < spec_col_position(cols, name) implies (
            #[trigger] cols[k]).name != name by {
                if k > 0 {
                    assert(rest[k - 1] == cols[k]);
                }
            }
        }
    }
}

/// Every name of a resolved list resolves, elementwise, to the returned
/// column at its position.
pub proof fn lemma_validate_columns_elements(avail: Seq<ColView>, names: Seq<Seq<char>>)
    requires
        spec_validate_columns(avail, names) is Some,
    ensures
        spec_validate_columns(avail, names).unwrap().len() == names.len(),
        forall|c: int|
            0 <= c < names.len() ==> spec_find_column(avail, #[trigger] names[c]) == Some(
                spec_validate_columns(avail, names).unwrap()[c],
            ),
    decreases names.len(),
{
    if names.len() > 0 {
        lemma_validate_columns_elements(avail, names.drop_first());
        let res = spec_validate_columns(avail, names).unwrap();
        let rest = spec_validate_columns(avail, names.drop_first()).unwrap();
        assert forall|c: int| 0 <= c < names.len() implies spec_find_column(
            avail,
            #[trigger] names[c],
        ) == Some(res[c]) by {
            if c > 0 {
                assert(names.drop_first()[c - 1] == names[c]);
                assert(res[c] == rest[c - 1]);
            }
        }
    }
}


/// Every projected column of a resolved select list is the first column
/// of its name.
pub proof fn lemma_queried_columns_elements(avail: Seq<ColView>, queried: Seq<Seq<char>>)
    requires
        spec_parse_queried_columns(avail, queried) is Some,
    ensures
        forall|c: int|
            0 <= c < spec_parse_queried_columns(avail, queried).unwrap().0.len()
                ==> spec_find_column(
                avail,
                (#[trigger] spec_parse_queried_columns(avail, queried).unwrap().0[c]).name,
            ) == Some(spec_parse_queried_columns(avail, queried).unwrap().0[c]),
    decreases queried.len(),
{
    if queried.len() > 0 {
        let pr = spec_try_parse_queried(queried[0]);
        let found = spec_find_column(avail, pr.1);
        lemma_find_is_position(avail, pr.1);
        lemma_queried_columns_elements(avail, queried.drop_first());
        let cols = spec_parse_queried_columns(avail, queried).unwrap().0;
        let rest = spec_parse_queried_columns(avail, queried.drop_first()).unwrap().0;
        assert forall|c: int| 0 <= c < cols.len() implies spec_find_column(
            avail,
            (#[trigger] cols[c]).name,
        ) == Some(cols[c]) by {
            if c == 0 {
                assert(cols[0] == found.unwrap());
            } else {
                assert(cols[c] == rest[c - 1]);
            }
        }
    }
}

} // verus!
