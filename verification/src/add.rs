//! `add`: splitting a `name@specifier` argument and deciding, from the
//! specifier, what to fetch from the registry and what to save in
//! `package.json`.
use vstd::prelude::*;
use crate::text::{concat2, find_char, lemma_find_props, spec_find, starts_with_char, str_eq, substr};

verus! {

broadcast use vstd::seq_lib::group_seq_properties;

/// Where the `@` between name and specifier stands, if there is one: the
/// first `@` after a leading scope marker.
pub open spec fn pkg_arg_split(arg: Seq<char>) -> Option<int> {
    let start: int = if arg.len() > 0 && arg[0] == '@' { 1 } else { 0 };
    spec_find(arg, '@', start)
}

/// The name part of a package argument.
pub open spec fn pkg_arg_name(arg: Seq<char>) -> Seq<char> {
    match pkg_arg_split(arg) {
        Some(i) => arg.take(i),
        None => arg,
    }
}

/// The specifier part of a package argument (empty when absent).
pub open spec fn pkg_arg_specifier(arg: Seq<char>) -> Seq<char> {
    match pkg_arg_split(arg) {
        Some(i) => arg.skip(i + 1),
        None => Seq::empty(),
    }
}

/// Split a package argument into name and version specifier; a leading
/// `@` is a scope marker, so `@scope/name@1.0.0` gives
/// `("@scope/name", "1.0.0")`.
pub fn parse_pkg_arg(arg: &str) -> (r: (String, String))
    ensures
        r.0@ == pkg_arg_name(arg@),
        r.1@ == pkg_arg_specifier(arg@),
{
    let start: usize = if starts_with_char(arg, '@') { 1 } else { 0 };
    let n = arg.unicode_len();
    proof {
        lemma_find_props(arg@, '@', start as int);
    }
    match find_char(arg, '@', start) {
        Some(split) => (substr(arg, 0, split), substr(arg, split + 1, n)),
        None => (arg.to_owned(), String::new()),
    }
}

/// A package argument written back from its two parts.
pub open spec fn join_pkg_arg(name: Seq<char>, specifier: Seq<char>, has_specifier: bool) -> Seq<char> {
    if has_specifier { name + "@"@ + specifier } else { name }
}

/// Splitting loses nothing: the name and the specifier, joined with `@`
/// when the argument had one, give the argument back.
pub proof fn lemma_pkg_arg_rejoin(arg: Seq<char>)
    ensures
        join_pkg_arg(pkg_arg_name(arg), pkg_arg_specifier(arg), pkg_arg_split(arg) is Some) == arg,
{
    reveal_strlit("@");
    let start: int = if arg.len() > 0 && arg[0] == '@' { 1 } else { 0 };
    lemma_find_props(arg, '@', start);
    if let Some(i) = pkg_arg_split(arg) {
        assert(arg.take(i) + "@"@ + arg.skip(i + 1) =~= arg);
    }
}

/// A name without `@` past its first character, joined with a specifier,
/// splits back into that name and that specifier.
pub proof fn lemma_pkg_arg_split_join(name: Seq<char>, specifier: Seq<char>)
    requires
        name.len() > 0,
        forall|j: int| 1 <= j < name.len() ==> name[j] != '@',
    ensures
        pkg_arg_name(name + "@"@ + specifier) == name,
        pkg_arg_specifier(name + "@"@ + specifier) == specifier,
{
    reveal_strlit("@");
    let arg = name + "@"@ + specifier;
    let start: int = if arg[0] == '@' { 1 } else { 0 };
    lemma_find_props(arg, '@', start);
    assert(arg[name.len() as int] == '@');
    match spec_find(arg, '@', start) {
        Some(i) => {
            if i < name.len() {
                assert(arg[i] == name[i]);
            }
            assert(i == name.len());
            assert(arg.take(i) =~= name);
            assert(arg.skip(i + 1) =~= specifier);
        },
        None => {},
    }
}

/// What `add` does with one specifier.
#[derive(Debug, PartialEq, Eq)]
pub enum SpecifierPlan {
    /// No specifier or `latest`: fetch the `latest` tag and save what it
    /// resolves to.
    FetchLatest,
    /// An exact version: fetch it to check that it exists, then save
    /// `save` (`^version`, or the version itself with `--save-exact`).
    FetchExact { version: String, save: String },
    /// A range: save it as written; the install step resolves it.
    SaveRange(String),
    /// A dist-tag: fetch the version it names and save that.
    FetchTag(String),
}

/// The range saved for a resolved version: `^version`, or the version
/// itself when saving exactly.
pub open spec fn spec_saved_range(version: Seq<char>, save_exact: bool) -> Seq<char> {
    if save_exact { version } else { "^"@ + version }
}

/// The range saved for a resolved version.
pub fn saved_range(version: &str, save_exact: bool) -> (r: String)
    ensures
        r@ == spec_saved_range(version@, save_exact),
{
    if save_exact { version.to_owned() } else { concat2("^", version) }
}

/// Whether a specifier means the `latest` tag.
pub open spec fn means_latest(specifier: Seq<char>) -> bool {
    specifier.len() == 0 || specifier == "latest"@
}

/// The plan for a specifier, given whether it parses as a semver version
/// and whether it parses as a semver range.
pub open spec fn spec_classify(specifier: Seq<char>, is_version: bool, is_range: bool, save_exact: bool) -> SpecifierPlanView {
    if means_latest(specifier) {
        SpecifierPlanView::FetchLatest
    } else if is_version {
        SpecifierPlanView::FetchExact { version: specifier, save: spec_saved_range(specifier, save_exact) }
    } else if is_range {
        SpecifierPlanView::SaveRange(specifier)
    } else {
        SpecifierPlanView::FetchTag(specifier)
    }
}

/// A plan with its strings taken as character sequences.
pub enum SpecifierPlanView {
    FetchLatest,
    FetchExact { version: Seq<char>, save: Seq<char> },
    SaveRange(Seq<char>),
    FetchTag(Seq<char>),
}

impl SpecifierPlan {
    pub open spec fn view(&self) -> SpecifierPlanView {
        match self {
            SpecifierPlan::FetchLatest => SpecifierPlanView::FetchLatest,
            SpecifierPlan::FetchExact { version, save } => SpecifierPlanView::FetchExact { version: version@, save: save@ },
            SpecifierPlan::SaveRange(s) => SpecifierPlanView::SaveRange(s@),
            SpecifierPlan::FetchTag(s) => SpecifierPlanView::FetchTag(s@),
        }
    }
}

/// Decide the plan for a specifier from what the semver parsers said of it.
pub fn classify_specifier(specifier: &str, is_version: bool, is_range: bool, save_exact: bool) -> (r: SpecifierPlan)
    ensures
        r@ == spec_classify(specifier@, is_version, is_range, save_exact),
{
    proof {
        reveal_strlit("latest");
    }
    if specifier.unicode_len() == 0 || str_eq(specifier, "latest") {
        SpecifierPlan::FetchLatest
    } else if is_version {
        SpecifierPlan::FetchExact { version: specifier.to_owned(), save: saved_range(specifier, save_exact) }
    } else if is_range {
        SpecifierPlan::SaveRange(specifier.to_owned())
    } else {
        SpecifierPlan::FetchTag(specifier.to_owned())
    }
}

/// Whether `node_semver` parses `s` as a version.
pub uninterp spec fn semver_version_parses(s: Seq<char>) -> bool;

/// Whether `node_semver` parses `s` as a range.
pub uninterp spec fn semver_range_parses(s: Seq<char>) -> bool;

/// Calls `node_semver::Version::parse` (through `str::parse`) and reports
/// whether it succeeded; the answer is named by `semver_version_parses`,
/// a function of the text alone. The input must not be empty.
#[verifier::external_body]
fn version_parses(s: &str) -> (r: bool)
    requires
        s@.len() > 0,
    ensures
        r == semver_version_parses(s@),
{
    s.parse::<node_semver::Version>().is_ok()
}

/// A character the range grammar reads as a wildcard component.
pub open spec fn is_wildcard(c: char) -> bool {
    c == 'x' || c == 'X' || c == '*'
}

/// An ASCII digit.
pub open spec fn is_digit_char(c: char) -> bool {
    '0' <= c && c <= '9'
}

/// A blank as the range grammar skips it: a space or a tab.
pub open spec fn is_blank(c: char) -> bool {
    c == ' ' || c == '\t'
}

/// The first position at or after `i` that is not a blank.
pub open spec fn skip_blanks(s: Seq<char>, i: int) -> int
    decreases s.len() - i,
{
    if 0 <= i < s.len() && is_blank(s[i]) {
        skip_blanks(s, i + 1)
    } else {
        i
    }
}

/// Where a version's first component starts when the version begins at
/// `i`: past an optional `v` and the blanks after it.
pub open spec fn after_v(s: Seq<char>, i: int) -> int {
    if 0 <= i < s.len() && s[i] == 'v' {
        skip_blanks(s, i + 1)
    } else {
        i
    }
}

/// A wildcard component starts at `i`.
pub open spec fn wildcard_at(s: Seq<char>, i: int) -> bool {
    0 <= i < s.len() && is_wildcard(s[i])
}

/// The first position at or after `i` that is not a digit.
pub open spec fn digits_end(s: Seq<char>, i: int) -> int
    decreases s.len() - i,
{
    if 0 <= i < s.len() && is_digit_char(s[i]) {
        digits_end(s, i + 1)
    } else {
        i
    }
}

/// The number that the digits `s[i..j]` write.
pub open spec fn digits_value(s: Seq<char>, i: int, j: int) -> int
    decreases j - i,
{
    if j <= i {
        0
    } else {
        digits_value(s, i, j - 1) * 10 + (s[j - 1] as int - 48)
    }
}

/// The largest number a version component may hold (2^53 - 1).
pub open spec fn max_component() -> int {
    9007199254740991
}

/// A numeric component starts at `i`: digits whose number is at most
/// `max_component()`.
pub open spec fn number_at(s: Seq<char>, i: int) -> bool {
    digits_end(s, i) > i && digits_value(s, i, digits_end(s, i)) <= max_component()
}

/// An `=` comparator at `i` whose version reads a wildcard major: node-semver
/// has no case for it.
pub open spec fn exact_wildcard_at(s: Seq<char>, i: int) -> bool {
    &&& s[i] == '='
    &&& wildcard_at(s, after_v(s, skip_blanks(s, i + 1)))
}

/// A `~` comparator at `i` (with an optional `>`) whose version reads a
/// wildcard major, or a numeric major, a wildcard minor and a numeric
/// patch: node-semver has no case for either.
pub open spec fn tilde_gap_at(s: Seq<char>, i: int) -> bool {
    let q = skip_blanks(s, i + 1);
    let r = if q < s.len() && s[q] == '>' { skip_blanks(s, q + 1) } else { q };
    let m = after_v(s, r);
    let k = digits_end(s, m);
    &&& s[i] == '~'
    &&& (wildcard_at(s, m) || (number_at(s, m) && k + 2 < s.len() && s[k] == '.' && is_wildcard(s[k + 1])
        && s[k + 2] == '.' && number_at(s, k + 3)))
}

/// How many `|` stand right before position `i`.
pub open spec fn pipes_before(s: Seq<char>, i: int) -> nat
    decreases i,
{
    if 0 < i <= s.len() && s[i - 1] == '|' {
        1 + pipes_before(s, i - 1)
    } else {
        0
    }
}

/// The range parser starts a comparator at `i` when `i` is the start,
/// follows a blank, or follows an even run of `|` (a run of `||`
/// separators).
pub open spec fn comparator_start(s: Seq<char>, i: int) -> bool {
    i == 0 || is_blank(s[i - 1]) || (s[i - 1] == '|' && pipes_before(s, i) % 2 == 0)
}

/// Whether some comparator at or after `i` is one the parser has no case for.
pub open spec fn parser_gap_from(s: Seq<char>, i: int) -> bool
    decreases s.len() - i,
{
    if 0 <= i < s.len() {
        (comparator_start(s, i) && (exact_wildcard_at(s, i) || tilde_gap_at(s, i))) || parser_gap_from(s, i + 1)
    } else {
        false
    }
}

/// Whether node-semver's range parser reaches a case it does not handle
/// (and panics) on `s`: some comparator is an `=` whose version has a
/// wildcard major, or a `~` whose version has a wildcard major or a
/// wildcard minor before a numeric patch.
pub open spec fn range_parser_gap(s: Seq<char>) -> bool {
    parser_gap_from(s, 0)
}

fn skip_blank_chars(s: &str, from: usize) -> (r: usize)
    requires
        from <= s@.len(),
    ensures
        r as int == skip_blanks(s@, from as int),
        from <= r <= s@.len(),
{
    let n: usize = s.unicode_len();
    let mut i: usize = from;
    while i < n
        invariant
            n == s@.len(),
            from <= i <= n,
            skip_blanks(s@, from as int) == skip_blanks(s@, i as int),
        decreases n - i,
    {
        let c = s.get_char(i);
        if c == ' ' || c == '\t' {
            i = i + 1;
        } else {
            return i;
        }
    }
    i
}

fn skip_v(s: &str, from: usize) -> (r: usize)
    requires
        from <= s@.len(),
    ensures
        r as int == after_v(s@, from as int),
        from <= r <= s@.len(),
{
    if from < s.unicode_len() && s.get_char(from) == 'v' {
        skip_blank_chars(s, from + 1)
    } else {
        from
    }
}

proof fn lemma_digits_value_nonneg(s: Seq<char>, i: int, j: int)
    requires
        forall|k: int| i <= k < j ==> is_digit_char(#[trigger] s[k]),
    ensures
        digits_value(s, i, j) >= 0,
    decreases j - i,
{
    if j > i {
        lemma_digits_value_nonneg(s, i, j - 1);
    }
}

/// Whether a numeric component starts at `from`; also where its digits end.
fn number_here(s: &str, from: usize) -> (r: (bool, usize))
    requires
        from <= s@.len(),
    ensures
        r.0 == number_at(s@, from as int),
        r.1 as int == digits_end(s@, from as int),
        from <= r.1 <= s@.len(),
{
    let n: usize = s.unicode_len();
    let mut j: usize = from;
    let mut value: u64 = 0;
    let mut too_big = false;
    while j < n && digit(s.get_char(j))
        invariant
            n == s@.len(),
            from <= j <= n,
            digits_end(s@, from as int) == digits_end(s@, j as int),
            forall|k: int| from <= k < j ==> is_digit_char(#[trigger] s@[k]),
            !too_big ==> value == digits_value(s@, from as int, j as int) && value <= max_component(),
            too_big ==> digits_value(s@, from as int, j as int) > max_component(),
        decreases n - j,
    {
        let c = s.get_char(j);
        let d: u64 = (c as u32 - 48u32) as u64;
        assert(d == s@[j as int] as int - 48);
        assert(d <= 9);
        proof {
            lemma_digits_value_nonneg(s@, from as int, j as int);
        }
        if !too_big {
            let next: u64 = value * 10 + d;
            if next > 9007199254740991 {
                too_big = true;
            } else {
                value = next;
            }
        }
        j = j + 1;
    }
    (j > from && !too_big, j)
}

fn wildcard(c: char) -> (r: bool)
    ensures
        r == is_wildcard(c),
{
    c == 'x' || c == 'X' || c == '*'
}

fn digit(c: char) -> (r: bool)
    ensures
        r == is_digit_char(c),
{
    '0' <= c && c <= '9'
}

fn wildcard_here(s: &str, i: usize) -> (r: bool)
    requires
        i <= s@.len(),
    ensures
        r == wildcard_at(s@, i as int),
{
    i < s.unicode_len() && wildcard(s.get_char(i))
}

fn exact_wildcard_here(s: &str, i: usize) -> (r: bool)
    requires
        i < s@.len(),
    ensures
        r == exact_wildcard_at(s@, i as int),
{
    let _n: usize = s.unicode_len();
    if s.get_char(i) != '=' {
        return false;
    }
    let q: usize = skip_blank_chars(s, i + 1);
    let m: usize = skip_v(s, q);
    wildcard_here(s, m)
}

fn tilde_gap_here(s: &str, i: usize) -> (r: bool)
    requires
        i < s@.len(),
    ensures
        r == tilde_gap_at(s@, i as int),
{
    if s.get_char(i) != '~' {
        return false;
    }
    let n: usize = s.unicode_len();
    let q: usize = skip_blank_chars(s, i + 1);
    let r: usize = if q < n && s.get_char(q) == '>' { skip_blank_chars(s, q + 1) } else { q };
    let m: usize = skip_v(s, r);
    if wildcard_here(s, m) {
        return true;
    }
    let (major, k) = number_here(s, m);
    if !major || !(k < n && n - k > 2) {
        return false;
    }
    if s.get_char(k) == '.' && wildcard(s.get_char(k + 1)) && s.get_char(k + 2) == '.' {
        let (patch, _) = number_here(s, k + 3);
        patch
    } else {
        false
    }
}

/// Whether `add` can decide on `specifier`: false exactly where
/// node-semver's range parser would reach a case it does not handle (see
/// `range_parser_gap`).
pub fn specifier_is_decidable(specifier: &str) -> (r: bool)
    ensures
        r == !range_parser_gap(specifier@),
{
    let n: usize = specifier.unicode_len();
    let mut i: usize = 0;
    let mut pipes: usize = 0;
    while i < n
        invariant
            n == specifier@.len(),
            i <= n,
            pipes as int == pipes_before(specifier@, i as int),
            pipes <= i,
            range_parser_gap(specifier@) == parser_gap_from(specifier@, i as int),
        decreases n - i,
    {
        let start = i == 0 || {
            let prev = specifier.get_char(i - 1);
            prev == ' ' || prev == '\t' || (prev == '|' && pipes % 2 == 0)
        };
        let hit = start && (exact_wildcard_here(specifier, i) || tilde_gap_here(specifier, i));
        if hit {
            return false;
        }
        pipes = if specifier.get_char(i) == '|' { pipes + 1 } else { 0 };
        i = i + 1;
    }
    true
}

/// Calls `node_semver::Range::parse` (through `str::parse`) and reports
/// whether it succeeded; the answer is named by `semver_range_parses`, a
/// function of the text alone. The input must not be empty, and must be
/// outside `range_parser_gap`: the texts on which the parser reaches an
/// `unreachable!` (an `=` or `~` comparator without a case).
#[verifier::external_body]
fn range_parses(s: &str) -> (r: bool)
    requires
        s@.len() > 0,
        !range_parser_gap(s@),
    ensures
        r == semver_range_parses(s@),
{
    s.parse::<node_semver::Range>().is_ok()
}

/// The plan for a specifier as `add` makes it: `latest` first, then an
/// exact version, then a range, else a dist-tag. Specifiers on which the
/// range parser panics on (`specifier_is_decidable` is false) are left
/// out.
pub fn plan_specifier(specifier: &str, save_exact: bool) -> (r: SpecifierPlan)
    requires
        !range_parser_gap(specifier@),
    ensures
        means_latest(specifier@) ==> r@ == SpecifierPlanView::FetchLatest,
        !means_latest(specifier@) ==> r@ == spec_classify(
            specifier@,
            semver_version_parses(specifier@),
            semver_version_parses(specifier@) || semver_range_parses(specifier@),
            save_exact,
        ),
{
    proof {
        reveal_strlit("latest");
    }
    if specifier.unicode_len() == 0 || str_eq(specifier, "latest") {
        return SpecifierPlan::FetchLatest;
    }
    let is_version = version_parses(specifier);
    let is_range = if is_version { true } else { range_parses(specifier) };
    classify_specifier(specifier, is_version, is_range, save_exact)
}

} // verus!
