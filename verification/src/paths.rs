//! Paths as texts and as sequences of components.
//!
//! A path is read as a sequence of components: a Windows prefix (such as a drive or a network
//! share) where the host knows them, the root, `.` for a leading "here", and the names in
//! between. Repeated separators, inner `.` names and a separator at the end carry no meaning.
//! Verbatim Windows paths (`\\?\...`) are taken more literally: only backslashes separate, and
//! every `.` counts.
use crate::text;
use vstd::prelude::*;

verus! {

/// How the host of this program writes paths.
#[derive(Debug, Clone, Copy, PartialEq, Eq, Structural)]
pub enum PathStyle {
    /// Components are separated by slashes.
    Unix,
    /// Components are separated by backslashes or slashes, and a path may start with a drive
    /// (`D:`) or a network share (`\\server\share`).
    Windows,
}

impl PathStyle {
    /// Whether `c` separates components.
    pub open spec fn separates(self, c: char) -> bool {
        c == '/' || (self == PathStyle::Windows && c == '\\')
    }

    /// The character that is put between components.
    pub open spec fn separator(self) -> char {
        match self {
            PathStyle::Unix => '/',
            PathStyle::Windows => '\\',
        }
    }
}

/// The component that starts an absolute path. No name is empty, so it stands for itself.
pub open spec fn root() -> Seq<char> {
    Seq::empty()
}

/// A slash.
pub open spec fn slash() -> Seq<char> {
    seq!['/']
}

/// The component that starts a path relative to "here".
pub open spec fn here() -> Seq<char> {
    seq!['.']
}

/// The component that leads to the directory above.
pub open spec fn above() -> Seq<char> {
    seq!['.', '.']
}

/// `s` with a slash for every separator.
pub open spec fn slashed(style: PathStyle, s: Seq<char>) -> Seq<char> {
    Seq::new(
        s.len(),
        |i: int|
            if style.separates(s[i]) {
                '/'
            } else {
                s[i]
            },
    )
}

/// An ASCII letter.
pub open spec fn is_letter(c: char) -> bool {
    'A' as u32 <= text::upper(c) as u32 <= 'Z' as u32
}

/// Whether a path starts with a drive, a letter and a colon.
pub open spec fn has_drive(style: PathStyle, path: Seq<char>) -> bool {
    style == PathStyle::Windows && path.len() >= 2 && is_letter(path[0]) && path[1] == ':'
}

/// Whether `c` ends a run of other characters: a backslash alone where `literal`, else any
/// separator.
pub open spec fn ends_run(style: PathStyle, literal: bool, c: char) -> bool {
    if literal {
        c == '\\'
    } else {
        style.separates(c)
    }
}

/// How many characters of `s` from place `from` on come before the next separator.
pub open spec fn run_length(style: PathStyle, literal: bool, s: Seq<char>, from: int) -> int
    decreases s.len() - from,
{
    if from < 0 || from >= s.len() || ends_run(style, literal, s[from]) {
        0
    } else {
        1 + run_length(style, literal, s, from + 1)
    }
}

/// Whether a path starts with two separators.
pub open spec fn has_double_separator(style: PathStyle, path: Seq<char>) -> bool {
    style == PathStyle::Windows && path.len() >= 2 && style.separates(path[0]) && style.separates(
        path[1],
    )
}

/// Whether a path is verbatim: it starts with `\\?\`, in backslashes.
pub open spec fn is_verbatim(style: PathStyle, path: Seq<char>) -> bool {
    &&& style == PathStyle::Windows
    &&& path.len() >= 4
    &&& path[0] == '\\'
    &&& path[1] == '\\'
    &&& path[2] == '?'
    &&& path[3] == '\\'
}

/// Whether `UNC` and a separator follow the start of a verbatim path.
pub open spec fn has_unc(style: PathStyle, path: Seq<char>) -> bool {
    path.len() >= 8 && path[4] == 'U' && path[5] == 'N' && path[6] == 'C' && style.separates(path[7])
}

/// Whether a drive and nothing more follows the start of a verbatim path.
pub open spec fn has_verbatim_drive(style: PathStyle, path: Seq<char>) -> bool {
    &&& path.len() >= 6
    &&& is_letter(path[4])
    &&& path[5] == ':'
    &&& path.len() == 6 || style.separates(path[6])
}

/// The length of the prefix of a verbatim path: `\\?\UNC\server\share`, `\\?\D:` or
/// `\\?\name`.
pub open spec fn verbatim_length(style: PathStyle, path: Seq<char>) -> int {
    if has_unc(style, path) {
        let server = run_length(style, true, path, 8);
        let share = run_length(style, true, path, 9 + server);
        8 + server + if share > 0 {
            1 + share
        } else {
            0
        }
    } else if has_verbatim_drive(style, path) {
        6
    } else {
        4 + run_length(style, true, path, 4)
    }
}

/// The length of the prefix of a path with two separators in front that is not verbatim: a
/// device (`\\.\name`) or a network share (`\\server\share`). Zero where it is neither.
pub open spec fn share_length(style: PathStyle, path: Seq<char>) -> int {
    if path.len() >= 4 && path[2] == '.' && style.separates(path[3]) {
        4 + run_length(style, false, path, 4)
    } else {
        let server = run_length(style, false, path, 2);
        let share = run_length(style, false, path, 3 + server);
        if server > 0 && share > 0 {
            3 + server + share
        } else {
            0
        }
    }
}

/// The length of the prefix of a path.
pub open spec fn prefix_length(style: PathStyle, path: Seq<char>) -> int {
    if has_drive(style, path) {
        2
    } else if is_verbatim(style, path) {
        verbatim_length(style, path)
    } else if has_double_separator(style, path) {
        share_length(style, path)
    } else {
        0
    }
}

/// The pieces that name something.
pub open spec fn names(pieces: Seq<Seq<char>>) -> Seq<Seq<char>>
    decreases pieces.len(),
{
    if pieces.len() == 0 {
        Seq::<Seq<char>>::empty()
    } else {
        let before = names(pieces.drop_last());
        let last = pieces.last();
        if last.len() == 0 || last == here() {
            before
        } else {
            before.push(last)
        }
    }
}

/// What a slash-separated path starts with besides names: the root, "here", or nothing.
pub open spec fn start(path: Seq<char>) -> Seq<Seq<char>> {
    if path.len() > 0 && path[0] == '/' {
        seq![root()]
    } else if text::split_on(path, '/')[0] == here() {
        seq![here()]
    } else {
        Seq::<Seq<char>>::empty()
    }
}

/// The components of a slash-separated path without a prefix.
pub open spec fn plain_components(path: Seq<char>) -> Seq<Seq<char>> {
    start(path) + names(text::split_on(path, '/'))
}

/// The pieces that are not empty.
pub open spec fn filled(pieces: Seq<Seq<char>>) -> Seq<Seq<char>>
    decreases pieces.len(),
{
    if pieces.len() == 0 {
        Seq::<Seq<char>>::empty()
    } else if pieces.last().len() == 0 {
        filled(pieces.drop_last())
    } else {
        filled(pieces.drop_last()).push(pieces.last())
    }
}

/// The prefix of a path as a component, with one way to write each separator in it.
pub open spec fn prefix_component(style: PathStyle, path: Seq<char>) -> Seq<char> {
    let prefix = path.take(prefix_length(style, path));
    if !is_verbatim(style, path) {
        slashed(style, prefix)
    } else if has_unc(style, path) {
        prefix.update(7, '\\')
    } else {
        prefix
    }
}

/// The components behind the prefix of a verbatim path.
pub open spec fn literal_components(rest: Seq<char>) -> Seq<Seq<char>> {
    if rest.len() == 0 {
        Seq::empty()
    } else {
        seq![root()] + filled(text::split_on(rest.skip(1), '\\'))
    }
}

/// The components of a path. What lies on a share is always seen from its root.
pub open spec fn components(style: PathStyle, path: Seq<char>) -> Seq<Seq<char>> {
    let n = prefix_length(style, path);
    let rest = slashed(style, path.skip(n));
    let first = prefix_component(style, path);
    if n == 0 {
        plain_components(rest)
    } else if has_drive(style, path) {
        seq![first] + plain_components(rest)
    } else if is_verbatim(style, path) {
        seq![first] + literal_components(path.skip(n))
    } else {
        seq![first, root()] + names(text::split_on(rest, '/'))
    }
}

/// Whether a component is a drive, verbatim or not.
pub open spec fn is_drive(style: PathStyle, part: Seq<char>) -> bool {
    ||| part.len() == 2 && has_drive(style, part)
    ||| part.len() == 6 && is_verbatim(style, part) && has_verbatim_drive(style, part)
}

/// Whether the first components of two paths mean the same. The letter of a drive may have
/// either case.
pub open spec fn same_first(style: PathStyle, a: Seq<char>, b: Seq<char>) -> bool {
    a == b || (is_drive(style, a) && text::same_ignoring_case(a, b))
}

/// Whether `path` starts with all components of `prefix`.
pub open spec fn starts_with(
    style: PathStyle,
    path: Seq<Seq<char>>,
    prefix: Seq<Seq<char>>,
) -> bool {
    &&& prefix.len() <= path.len()
    &&& prefix.len() > 0 ==> same_first(style, path[0], prefix[0])
    &&& forall|i: int| 1 <= i < prefix.len() ==> path[i] == #[trigger] prefix[i]
}

/// The components of `tail` seen from `base`: an absolute tail stands for itself.
pub open spec fn joined(base: Seq<Seq<char>>, tail: Seq<Seq<char>>) -> Seq<Seq<char>> {
    if base.len() == 0 || (tail.len() > 0 && tail[0] == root()) {
        tail
    } else if tail.len() > 0 && tail[0] == here() {
        base + tail.skip(1)
    } else {
        base + tail
    }
}

/// The components of a verbatim path with one more component behind them: the root leads back
/// to the prefix, "here" nowhere, and "above" takes a name away.
pub open spec fn absorb(all: Seq<Seq<char>>, part: Seq<char>) -> Seq<Seq<char>> {
    if part == root() {
        all.take(1).push(root())
    } else if part == here() {
        all
    } else if part == above() {
        if all.len() > 1 && all.last() != root() && all.last() != here() && all.last() != above() {
            all.drop_last()
        } else {
            all
        }
    } else {
        all.push(part)
    }
}

/// The components of a verbatim path with others behind them.
pub open spec fn absorbed(all: Seq<Seq<char>>, parts: Seq<Seq<char>>) -> Seq<Seq<char>>
    decreases parts.len(),
{
    if parts.len() == 0 {
        all
    } else {
        absorb(absorbed(all, parts.drop_last()), parts.last())
    }
}

/// The text of a verbatim path with the given prefix and components; the first of these stands
/// for the prefix.
pub open spec fn spelled(prefix: Seq<char>, all: Seq<Seq<char>>) -> Seq<char> {
    if all.len() <= 1 {
        prefix
    } else if all[1] == root() {
        prefix + seq!['\\'] + text::join(all.skip(2), seq!['\\'])
    } else {
        prefix + seq!['\\'] + text::join(all.skip(1), seq!['\\'])
    }
}

/// The text of `tail` seen from `base`. A tail with a prefix stands for itself. A verbatim
/// base takes in the components of the tail one by one. For any other base, a tail that starts
/// at the root keeps only the prefix of the base; else it is put behind the base, with a
/// separator in between where one is missing.
pub open spec fn pushed(style: PathStyle, base: Seq<char>, tail: Seq<char>) -> Seq<char> {
    if prefix_length(style, tail) > 0 {
        tail
    } else if is_verbatim(style, base) && tail.len() > 0 {
        spelled(
            base.take(prefix_length(style, base)),
            absorbed(components(style, base), components(style, tail)),
        )
    } else if tail.len() > 0 && style.separates(tail[0]) {
        base.take(prefix_length(style, base)) + tail
    } else if base.len() == 0 || style.separates(base.last()) || (base.len() == 2 && has_drive(
        style,
        base,
    )) {
        base + tail
    } else {
        base.push(style.separator()) + tail
    }
}

/// The last name of a path, unless the path ends in its prefix, the root, "here" or "above".
pub open spec fn file_name(style: PathStyle, path: Seq<char>) -> Option<Seq<char>> {
    let all = components(style, path);
    if all.len() == 0 || all.last() == root() || all.last() == here() || all.last() == above() || (
    all.len() == 1 && prefix_length(style, path) > 0) {
        None
    } else {
        Some(all.last())
    }
}

/// The shortest text with the given components, of a path without a prefix.
pub open spec fn render(style: PathStyle, path: Seq<Seq<char>>) -> Seq<char> {
    let sep = seq![style.separator()];
    if path.len() > 0 && path[0] == root() {
        sep + text::join(path.skip(1), sep)
    } else {
        text::join(path, sep)
    }
}

/// A name of a path: not empty, not "here", and without a slash.
pub open spec fn is_name(piece: Seq<char>) -> bool {
    &&& piece.len() > 0
    &&& piece != here()
    &&& !piece.contains('/')
}

/// Sequences that some slash-separated path has as its components.
pub open spec fn well_formed(path: Seq<Seq<char>>) -> bool {
    &&& path.len() > 0 ==> path[0] == root() || path[0] == here() || is_name(path[0])
    &&& forall|i: int| 1 <= i < path.len() ==> is_name(#[trigger] path[i])
}

/// Whether `c` separates components.
fn is_separator(style: PathStyle, c: char) -> (r: bool)
    ensures
        r == style.separates(c),
{
    c == '/' || (style == PathStyle::Windows && c == '\\')
}

/// The character that is put between components, as a text.
fn separator_text(style: PathStyle) -> (r: &'static str)
    ensures
        r@ == seq![style.separator()],
{
    proof {
        reveal_strlit("/");
        reveal_strlit("\\");
        assert("/"@ =~= seq!['/']);
        assert("\\"@ =~= seq!['\\']);
    }
    match style {
        PathStyle::Unix => "/",
        PathStyle::Windows => "\\",
    }
}

/// `s` with a slash for every separator.
fn with_slashes(style: PathStyle, s: &str) -> (r: String)
    ensures
        r@ == slashed(style, s@),
{
    let v = text::chars_of(s);
    let mut out = String::new();
    let mut i: usize = 0;
    proof {
        reveal_strlit("/");
        assert("/"@ =~= seq!['/']);
    }
    assert(out@ =~= slashed(style, s@.take(0)));
    while i < v.len()
        invariant
            i <= v.len(),
            v@ == s@,
            "/"@ == seq!['/'],
            out@ == slashed(style, s@.take(i as int)),
        decreases v.len() - i,
    {
        if is_separator(style, v[i]) {
            out.append("/");
        } else {
            out.append(s.substring_char(i, i + 1));
        }
        assert(out@ =~= slashed(style, s@.take(i + 1)));
        i = i + 1;
    }
    assert(s@.take(i as int) =~= s@);
    out
}

fn starts_with_drive(style: PathStyle, v: &Vec<char>) -> (r: bool)
    ensures
        r == has_drive(style, v@),
{
    if style == PathStyle::Windows && v.len() >= 2 {
        let letter: u32 = text::to_upper(v[0]) as u32;
        65 <= letter && letter <= 90 && v[1] == ':'
    } else {
        false
    }
}

/// Whether `c` ends a run of other characters.
fn run_ends(style: PathStyle, literal: bool, c: char) -> (r: bool)
    ensures
        r == ends_run(style, literal, c),
{
    if literal {
        c == '\\'
    } else {
        is_separator(style, c)
    }
}

/// How many characters of `v` from place `from` on come before the next separator.
fn run_of(style: PathStyle, literal: bool, v: &Vec<char>, from: usize) -> (r: usize)
    requires
        from <= v.len(),
    ensures
        r == run_length(style, literal, v@, from as int),
        from + r <= v.len(),
{
    let mut n: usize = 0;
    while from + n < v.len() && !run_ends(style, literal, v[from + n])
        invariant
            from + n <= v.len(),
            run_length(style, literal, v@, from as int) == n + run_length(
                style,
                literal,
                v@,
                from + n,
            ),
        decreases v.len() - n,
    {
        n = n + 1;
    }
    n
}

/// The length of a second run, which starts behind the separator that ends a first one.
fn second_run(style: PathStyle, literal: bool, v: &Vec<char>, end: usize) -> (r: usize)
    requires
        end <= v.len(),
    ensures
        r == run_length(style, literal, v@, end + 1),
        r > 0 ==> end + 1 + r <= v.len(),
{
    if end < v.len() {
        run_of(style, literal, v, end + 1)
    } else {
        0
    }
}

fn verbatim(style: PathStyle, v: &Vec<char>) -> (r: bool)
    ensures
        r == is_verbatim(style, v@),
{
    style == PathStyle::Windows && v.len() >= 4 && v[0] == '\\' && v[1] == '\\' && v[2] == '?'
        && v[3] == '\\'
}

fn unc(style: PathStyle, v: &Vec<char>) -> (r: bool)
    ensures
        r == has_unc(style, v@),
{
    v.len() >= 8 && v[4] == 'U' && v[5] == 'N' && v[6] == 'C' && is_separator(style, v[7])
}

fn verbatim_drive(style: PathStyle, v: &Vec<char>) -> (r: bool)
    ensures
        r == has_verbatim_drive(style, v@),
{
    if v.len() < 6 {
        return false;
    }
    let letter: u32 = text::to_upper(v[4]) as u32;
    65 <= letter && letter <= 90 && v[5] == ':' && (v.len() == 6 || is_separator(style, v[6]))
}

/// The length of the prefix of a path.
fn prefix_of(style: PathStyle, v: &Vec<char>) -> (r: usize)
    ensures
        r == prefix_length(style, v@),
        r <= v.len(),
{
    if starts_with_drive(style, v) {
        return 2;
    }
    if verbatim(style, v) {
        if unc(style, v) {
            let server: usize = run_of(style, true, v, 8);
            let share: usize = second_run(style, true, v, 8 + server);
            return if share > 0 {
                9 + server + share
            } else {
                8 + server
            };
        }
        return if verbatim_drive(style, v) {
            6
        } else {
            4 + run_of(style, true, v, 4)
        };
    }
    if style == PathStyle::Windows && v.len() >= 2 && is_separator(style, v[0]) && is_separator(
        style,
        v[1],
    ) {
        if v.len() >= 4 && v[2] == '.' && is_separator(style, v[3]) {
            return 4 + run_of(style, false, v, 4);
        }
        let server: usize = run_of(style, false, v, 2);
        let share: usize = second_run(style, false, v, 2 + server);
        if server > 0 && share > 0 {
            return 3 + server + share;
        }
    }
    0
}

/// The pieces of a slash-separated path that name something.
fn names_of(path: &str) -> (r: Vec<String>)
    ensures
        text::views(r@) == names(text::split_on(path@, '/')),
{
    let pieces = text::split(path, '/');
    let ghost all = text::views(pieces@);
    let mut out: Vec<String> = Vec::new();
    proof {
        reveal_strlit(".");
        assert("."@ =~= here());
    }
    let mut i: usize = 0;
    assert(text::views(out@) =~= names(all.take(0)));
    while i < pieces.len()
        invariant
            i <= pieces.len(),
            all == text::views(pieces@),
            "."@ == here(),
            text::views(out@) == names(all.take(i as int)),
        decreases pieces.len() - i,
    {
        let ghost before = text::views(out@);
        assert(all.take(i + 1).drop_last() =~= all.take(i as int));
        if !pieces[i].as_str().is_empty() && !text::same(pieces[i].as_str(), ".") {
            out.push(pieces[i].clone());
            assert(text::views(out@) =~= before.push(all[i as int]));
        }
        i = i + 1;
    }
    assert(all.take(pieces@.len() as int) =~= all);
    out
}

/// The components of a slash-separated path without a prefix.
fn plain_components_of(path: &str) -> (r: Vec<String>)
    ensures
        text::views(r@) == plain_components(path@),
{
    let pieces = text::split(path, '/');
    let mut out: Vec<String> = Vec::new();
    proof {
        lemma_split_not_empty(path@);
        reveal_strlit(".");
        assert("."@ =~= here());
    }
    assert(text::views(pieces@)[0] == pieces@[0]@);
    if !path.is_empty() && path.get_char(0) == '/' {
        out.push(String::new());
        assert(out@[0]@ =~= root());
        assert(text::views(out@) =~= seq![root()]);
    } else if text::same(pieces[0].as_str(), ".") {
        out.push(".".to_owned());
        assert(text::views(out@) =~= seq![here()]);
    } else {
        assert(text::views(out@) =~= Seq::<Seq<char>>::empty());
    }
    let ghost head = text::views(out@);
    assert(head == start(path@));
    let mut named = names_of(path);
    let ghost given = named@;
    out.append(&mut named);
    assert(text::views(out@) =~= head + text::views(given));
    out
}

/// The pieces of a text between backslashes that are not empty.
fn filled_of(path: &str) -> (r: Vec<String>)
    ensures
        text::views(r@) == filled(text::split_on(path@, '\\')),
{
    let pieces = text::split(path, '\\');
    let ghost all = text::views(pieces@);
    let mut out: Vec<String> = Vec::new();
    let mut i: usize = 0;
    assert(text::views(out@) =~= filled(all.take(0)));
    while i < pieces.len()
        invariant
            i <= pieces.len(),
            all == text::views(pieces@),
            text::views(out@) == filled(all.take(i as int)),
        decreases pieces.len() - i,
    {
        let ghost before = text::views(out@);
        assert(all.take(i + 1).drop_last() =~= all.take(i as int));
        if !pieces[i].as_str().is_empty() {
            out.push(pieces[i].clone());
            assert(text::views(out@) =~= before.push(all[i as int]));
        }
        i = i + 1;
    }
    assert(all.take(pieces@.len() as int) =~= all);
    out
}

/// The prefix of a path as a component.
fn prefix_component_of(style: PathStyle, path: &str, v: &Vec<char>, n: usize) -> (r: String)
    requires
        v@ == path@,
        n == prefix_length(style, path@),
        n <= path@.len(),
        is_verbatim(style, path@) && has_unc(style, path@) ==> n >= 8,
    ensures
        r@ == prefix_component(style, path@),
{
    assert(path@.subrange(0, n as int) =~= path@.take(n as int));
    if !verbatim(style, v) {
        with_slashes(style, path.substring_char(0, n))
    } else if unc(style, v) {
        proof {
            reveal_strlit("\\");
            assert("\\"@ =~= seq!['\\']);
        }
        let r = path.substring_char(0, 7).to_owned().concat("\\").concat(
            path.substring_char(8, n),
        );
        assert(r@ =~= path@.take(n as int).update(7, '\\'));
        r
    } else {
        path.substring_char(0, n).to_owned()
    }
}

/// The components of `path`.
pub fn components_of(style: PathStyle, path: &str) -> (r: Vec<String>)
    ensures
        text::views(r@) == components(style, path@),
{
    let v = text::chars_of(path);
    let n: usize = prefix_of(style, &v);
    let raw = path.substring_char(n, v.len());
    let rest = with_slashes(style, raw);
    assert(raw@ =~= path@.skip(n as int));
    if n == 0 {
        return plain_components_of(rest.as_str());
    }
    proof {
        if is_verbatim(style, path@) && has_unc(style, path@) {
            lemma_run_length(style, true, path@, 8);
            lemma_run_length(style, true, path@, 9 + run_length(style, true, path@, 8));
        }
    }
    let first = prefix_component_of(style, path, &v, n);
    let ghost shown = first@;
    let mut out: Vec<String> = Vec::new();
    out.push(first);
    assert(text::views(out@) =~= seq![shown]);
    if starts_with_drive(style, &v) {
        let mut tail = plain_components_of(rest.as_str());
        let ghost given = tail@;
        out.append(&mut tail);
        assert(text::views(out@) =~= seq![shown] + text::views(given));
    } else if verbatim(style, &v) {
        if n < v.len() {
            out.push(String::new());
            assert(out@[1]@ =~= root());
            let mut tail = filled_of(path.substring_char(n + 1, v.len()));
            assert(path@.subrange(n + 1, v@.len() as int) =~= raw@.skip(1));
            let ghost given = tail@;
            out.append(&mut tail);
            assert(text::views(out@) =~= seq![shown] + (seq![root()] + text::views(given)));
        } else {
            assert(text::views(out@) =~= seq![shown] + Seq::<Seq<char>>::empty());
        }
    } else {
        out.push(String::new());
        assert(out@[1]@ =~= root());
        let mut named = names_of(rest.as_str());
        let ghost given = named@;
        out.append(&mut named);
        assert(text::views(out@) =~= seq![shown, root()] + text::views(given));
    }
    out
}

/// Whether the first components of two paths mean the same.
fn equal_first(style: PathStyle, a: &str, b: &str) -> (r: bool)
    ensures
        r == same_first(style, a@, b@),
{
    if text::same(a, b) {
        return true;
    }
    let v = text::chars_of(a);
    let drive = (v.len() == 2 && starts_with_drive(style, &v)) || (v.len() == 6 && verbatim(
        style,
        &v,
    ) && verbatim_drive(style, &v));
    drive && text::equal_ignoring_case(a, b)
}

/// Whether `path` starts with all components of `prefix`.
pub fn has_prefix(style: PathStyle, path: &Vec<String>, prefix: &Vec<String>) -> (r: bool)
    ensures
        r == starts_with(style, text::views(path@), text::views(prefix@)),
{
    if prefix.len() > path.len() {
        return false;
    }
    if prefix.len() == 0 {
        return true;
    }
    let ghost p = text::views(path@);
    let ghost q = text::views(prefix@);
    if !equal_first(style, path[0].as_str(), prefix[0].as_str()) {
        assert(!same_first(style, p[0], q[0]));
        return false;
    }
    let mut i: usize = 1;
    while i < prefix.len()
        invariant
            1 <= i <= prefix.len() <= path.len(),
            p == text::views(path@),
            q == text::views(prefix@),
            forall|j: int| 1 <= j < i ==> p[j] == #[trigger] q[j],
        decreases prefix.len() - i,
    {
        if !text::same(path[i].as_str(), prefix[i].as_str()) {
            assert(p[i as int] != q[i as int]);
            return false;
        }
        i = i + 1;
    }
    true
}

/// The strings from place `from` on.
pub fn tail_from(v: &Vec<String>, from: usize) -> (r: Vec<String>)
    requires
        from <= v.len(),
    ensures
        text::views(r@) == text::views(v@).skip(from as int),
{
    let mut out: Vec<String> = Vec::new();
    let mut i: usize = from;
    while i < v.len()
        invariant
            from <= i <= v.len(),
            text::views(out@) =~= text::views(v@).subrange(from as int, i as int),
        decreases v.len() - i,
    {
        let ghost before = text::views(out@);
        out.push(v[i].clone());
        assert(text::views(out@) =~= before.push(text::views(v@)[i as int]));
        i = i + 1;
    }
    out
}

/// Takes one component into those of a verbatim path.
fn take_in(all: &mut Vec<String>, part: &str)
    requires
        old(all).len() > 0,
    ensures
        text::views(final(all)@) == absorb(text::views(old(all)@), part@),
        final(all).len() > 0,
{
    proof {
        reveal_strlit(".");
        reveal_strlit("..");
        assert("."@ =~= here());
        assert(".."@ =~= above());
    }
    let ghost before = text::views(all@);
    if part.is_empty() {
        assert(part@ =~= root());
        all.truncate(1);
        all.push(String::new());
        assert(all@[1]@ =~= root());
        assert(text::views(all@) =~= before.take(1).push(root()));
    } else if text::same(part, ".") {
    } else if text::same(part, "..") {
        let n: usize = all.len();
        assert(before.last() == all@[n - 1]@);
        let last = all[n - 1].as_str();
        if n > 1 && !last.is_empty() && !text::same(last, ".") && !text::same(last, "..") {
            assert(before.last() != root());
            all.truncate(n - 1);
            assert(text::views(all@) =~= before.drop_last());
        } else {
            assert(last@.len() == 0 ==> last@ =~= root());
        }
    } else {
        all.push(part.to_owned());
        assert(text::views(all@) =~= before.push(part@));
    }
}

/// The text of `tail` seen from a verbatim `base`.
fn push_verbatim(style: PathStyle, base: &str, tail: &str) -> (r: String)
    requires
        is_verbatim(style, base@),
    ensures
        r@ == spelled(
            base@.take(prefix_length(style, base@)),
            absorbed(components(style, base@), components(style, tail@)),
        ),
{
    let mut all = components_of(style, base);
    let ghost start_parts = text::views(all@);
    let parts = components_of(style, tail);
    let ghost added = text::views(parts@);
    let v = text::chars_of(base);
    let n: usize = prefix_of(style, &v);
    proof {
        lemma_verbatim_prefix(style, base@);
        assert(components(style, base@)[0] == prefix_component(style, base@));
        assert(all@.len() == start_parts.len());
    }
    let mut i: usize = 0;
    assert(added.take(0) =~= Seq::<Seq<char>>::empty());
    while i < parts.len()
        invariant
            i <= parts.len(),
            all.len() > 0,
            added == text::views(parts@),
            text::views(all@) == absorbed(start_parts, added.take(i as int)),
        decreases parts.len() - i,
    {
        assert(added.take(i + 1).drop_last() =~= added.take(i as int));
        assert(added.take(i + 1).last() == parts@[i as int]@);
        take_in(&mut all, parts[i].as_str());
        i = i + 1;
    }
    assert(added.take(i as int) =~= added);
    let prefix = base.substring_char(0, n).to_owned();
    assert(prefix@ =~= base@.take(n as int));
    if all.len() <= 1 {
        return prefix;
    }
    let sep = separator_text(style);
    assert(text::views(all@)[1] == all@[1]@);
    if all[1].as_str().is_empty() {
        assert(all@[1]@ =~= root());
        let rest = tail_from(&all, 2);
        prefix.concat(sep).concat(text::join_with(&rest, sep).as_str())
    } else {
        assert(all@[1]@ != root());
        let rest = tail_from(&all, 1);
        prefix.concat(sep).concat(text::join_with(&rest, sep).as_str())
    }
}

/// The text of `tail` seen from `base`.
pub fn push_path(style: PathStyle, base: &str, tail: &str) -> (r: String)
    ensures
        r@ == pushed(style, base@, tail@),
{
    let b = text::chars_of(base);
    let t = text::chars_of(tail);
    if prefix_of(style, &t) > 0 {
        return tail.to_owned();
    }
    if verbatim(style, &b) && t.len() > 0 {
        return push_verbatim(style, base, tail);
    }
    if t.len() > 0 && is_separator(style, t[0]) {
        let kept: usize = prefix_of(style, &b);
        assert(base@.subrange(0, kept as int) =~= base@.take(kept as int));
        return base.substring_char(0, kept).to_owned().concat(tail);
    }
    if b.len() == 0 || is_separator(style, b[b.len() - 1]) || (b.len() == 2 && starts_with_drive(
        style,
        &b,
    )) {
        base.to_owned().concat(tail)
    } else {
        let r = base.to_owned().concat(separator_text(style)).concat(tail);
        assert(base@ + seq![style.separator()] =~= base@.push(style.separator()));
        r
    }
}

/// The last name of a path.
pub fn file_name_of(style: PathStyle, path: &str) -> (r: Option<String>)
    ensures
        r matches Some(n) ==> file_name(style, path@) == Some(n@),
        r is None ==> file_name(style, path@) is None,
{
    proof {
        reveal_strlit(".");
        reveal_strlit("..");
        assert("."@ =~= here());
        assert(".."@ =~= above());
    }
    let all = components_of(style, path);
    if all.len() == 0 {
        return None;
    }
    let last = &all[all.len() - 1];
    assert(text::views(all@).last() == last@);
    assert(last@.len() == 0 ==> last@ =~= root());
    if last.as_str().is_empty() || text::same(last.as_str(), ".") || text::same(
        last.as_str(),
        "..",
    ) || (all.len() == 1 && prefix_of(style, &text::chars_of(path)) > 0) {
        None
    } else {
        Some(last.clone())
    }
}

/// The shortest text with the given components.
pub fn render_path(style: PathStyle, path: &Vec<String>) -> (r: String)
    ensures
        r@ == render(style, text::views(path@)),
{
    let sep = separator_text(style);
    assert(path@.len() > 0 ==> text::views(path@)[0] == path@[0]@);
    assert(path@.len() > 0 && path@[0]@.len() == 0 ==> path@[0]@ =~= root());
    if path.len() > 0 && path[0].as_str().is_empty() {
        let rest = tail_from(path, 1);
        sep.to_owned().concat(text::join_with(&rest, sep).as_str())
    } else {
        text::join_with(path, sep)
    }
}

/// A text always splits into at least one piece.
proof fn lemma_split_not_empty(s: Seq<char>)
    ensures
        text::split_on(s, '/').len() > 0,
{
    text::lemma_split_not_empty(s, '/');
}

/// Splitting a text at a slash splits its two sides.
proof fn lemma_split_at(a: Seq<char>, b: Seq<char>)
    ensures
        text::split_on(a + seq!['/'] + b, '/') == text::split_on(a, '/') + text::split_on(b, '/'),
{
    text::lemma_split_at(a, b, '/');
}

/// A text without a slash is its own only piece.
proof fn lemma_split_none(s: Seq<char>)
    requires
        !s.contains('/'),
    ensures
        text::split_on(s, '/') == seq![s],
{
    text::lemma_split_none(s, '/');
}

/// Splitting undoes joining, where no part holds a slash.
proof fn lemma_split_join(parts: Seq<Seq<char>>)
    requires
        parts.len() > 0,
        forall|i: int| 0 <= i < parts.len() ==> !(#[trigger] parts[i]).contains('/'),
    ensures
        text::split_on(text::join(parts, slash()), '/') == parts,
    decreases parts.len(),
{
    if parts.len() == 1 {
        lemma_split_none(parts[0]);
        assert(seq![parts[0]] =~= parts);
    } else {
        let front = parts.drop_last();
        assert forall|i: int| 0 <= i < front.len() implies !(#[trigger] front[i]).contains('/') by {
            assert(front[i] == parts[i]);
        }
        lemma_split_join(front);
        assert(!parts[parts.len() - 1].contains('/'));
        lemma_split_none(parts.last());
        lemma_split_at(text::join(front, slash()), parts.last());
        assert(front + seq![parts.last()] =~= parts);
    }
}

/// Names of two piece sequences side by side.
proof fn lemma_names_concat(a: Seq<Seq<char>>, b: Seq<Seq<char>>)
    ensures
        names(a + b) == names(a) + names(b),
    decreases b.len(),
{
    if b.len() == 0 {
        assert(a + b =~= a);
        assert(names(a) + names(b) =~= names(a));
    } else {
        assert((a + b).drop_last() =~= a + b.drop_last());
        assert((a + b).last() == b.last());
        lemma_names_concat(a, b.drop_last());
        assert(names(a + b) =~= names(a) + names(b));
    }
}

/// Names are left as they are.
proof fn lemma_names_same(parts: Seq<Seq<char>>)
    requires
        forall|i: int| 0 <= i < parts.len() ==> is_name(#[trigger] parts[i]),
    ensures
        names(parts) == parts,
    decreases parts.len(),
{
    if parts.len() > 0 {
        let front = parts.drop_last();
        assert forall|i: int| 0 <= i < front.len() implies is_name(#[trigger] front[i]) by {
            assert(front[i] == parts[i]);
        }
        lemma_names_same(front);
        assert(is_name(parts[parts.len() - 1]));
        assert(front.push(parts.last()) =~= parts);
    } else {
        assert(names(parts) =~= parts);
    }
}

proof fn lemma_pieces_hold_no_slash(s: Seq<char>)
    ensures
        forall|i: int|
            0 <= i < text::split_on(s, '/').len() ==> !(#[trigger] text::split_on(
                s,
                '/',
            )[i]).contains('/'),
{
    text::law_split_then_join(s, '/');
}

proof fn lemma_names_are_names(pieces: Seq<Seq<char>>)
    requires
        forall|i: int| 0 <= i < pieces.len() ==> !(#[trigger] pieces[i]).contains('/'),
    ensures
        forall|i: int| 0 <= i < names(pieces).len() ==> is_name(#[trigger] names(pieces)[i]),
    decreases pieces.len(),
{
    if pieces.len() > 0 {
        let front = pieces.drop_last();
        assert forall|i: int| 0 <= i < front.len() implies !(#[trigger] front[i]).contains('/') by {
            assert(front[i] == pieces[i]);
        }
        lemma_names_are_names(front);
        assert(!pieces[pieces.len() - 1].contains('/'));
        let all = names(pieces);
        assert forall|i: int| 0 <= i < all.len() implies is_name(#[trigger] all[i]) by {
            if i < names(front).len() {
                assert(all[i] == names(front)[i]);
            }
        }
    }
}

/// One piece that names nothing.
proof fn lemma_names_blank(piece: Seq<char>)
    requires
        piece.len() == 0 || piece == here(),
    ensures
        names(seq![piece]) == Seq::<Seq<char>>::empty(),
{
    reveal_with_fuel(names, 2);
    assert(seq![piece].drop_last() =~= Seq::<Seq<char>>::empty());
}

proof fn lemma_plain_well_formed(path: Seq<char>)
    ensures
        well_formed(plain_components(path)),
{
    lemma_pieces_hold_no_slash(path);
    lemma_names_are_names(text::split_on(path, '/'));
    let all = plain_components(path);
    let rest = names(text::split_on(path, '/'));
    assert forall|i: int| 1 <= i < all.len() implies is_name(#[trigger] all[i]) by {
        assert(all[i] == rest[i - start(path).len()]);
    }
    if start(path).len() == 0 && all.len() > 0 {
        assert(all[0] == rest[0]);
    }
}

/// The components of every path without a prefix are well formed.
pub proof fn law_components_are_well_formed(style: PathStyle, path: Seq<char>)
    requires
        prefix_length(style, path) == 0,
    ensures
        well_formed(components(style, path)),
{
    lemma_plain_well_formed(slashed(style, path.skip(0)));
}

/// The shortest slash-separated text with the given components.
spec fn plain_render(path: Seq<Seq<char>>) -> Seq<char> {
    if path.len() > 0 && path[0] == root() {
        slash() + text::join(path.skip(1), slash())
    } else {
        text::join(path, slash())
    }
}

proof fn lemma_render_then_read(path: Seq<Seq<char>>)
    requires
        well_formed(path),
    ensures
        plain_components(plain_render(path)) == path,
{
    if path.len() == 0 {
        assert(plain_components(plain_render(path)) =~= path) by {
            lemma_split_none(Seq::<char>::empty());
            lemma_names_blank(Seq::<char>::empty());
        }
    } else if path[0] == root() {
        let rest = path.skip(1);
        let shown = plain_render(path);
        assert forall|i: int| 0 <= i < rest.len() implies is_name(#[trigger] rest[i]) by {
            assert(rest[i] == path[i + 1]);
        }
        lemma_names_same(rest);
        let body = text::join(rest, slash());
        assert(shown =~= Seq::<char>::empty() + seq!['/'] + body);
        lemma_split_at(Seq::<char>::empty(), body);
        lemma_split_none(Seq::<char>::empty());
        let blank = seq![Seq::<char>::empty()];
        lemma_names_blank(Seq::<char>::empty());
        lemma_names_concat(blank, text::split_on(body, '/'));
        if rest.len() > 0 {
            lemma_split_join(rest);
        } else {
            assert(body =~= Seq::<char>::empty());
        }
        assert(names(text::split_on(shown, '/')) =~= rest);
        assert(seq![root()] + rest =~= path);
    } else {
        let shown = plain_render(path);
        assert forall|i: int| 0 <= i < path.len() implies !(#[trigger] path[i]).contains('/') by {
            if i > 0 {
                assert(is_name(path[i]));
            }
        }
        lemma_split_join(path);
        assert(shown.len() > 0 ==> shown[0] != '/') by {
            lemma_join_first(path);
        }
        if path[0] == here() {
            let rest = path.skip(1);
            assert forall|i: int| 0 <= i < rest.len() implies is_name(#[trigger] rest[i]) by {
                assert(rest[i] == path[i + 1]);
            }
            lemma_names_same(rest);
            lemma_names_concat(seq![here()], rest);
            assert(seq![here()] + rest =~= path);
            lemma_names_blank(here());
            assert(seq![here()] + names(path) =~= path);
        } else {
            assert forall|i: int| 0 <= i < path.len() implies is_name(#[trigger] path[i]) by {}
            lemma_names_same(path);
            assert(Seq::<Seq<char>>::empty() + path =~= path);
        }
    }
}

/// A joined text starts as its first part does.
proof fn lemma_join_first(parts: Seq<Seq<char>>)
    requires
        parts.len() > 0,
        parts[0].len() > 0,
    ensures
        text::join(parts, slash()).len() > 0,
        text::join(parts, slash())[0] == parts[0][0],
    decreases parts.len(),
{
    if parts.len() > 1 {
        lemma_join_first(parts.drop_last());
    }
}

/// Joining by separators and joining by slashes differ in the separators alone.
proof fn lemma_slashed_join(style: PathStyle, parts: Seq<Seq<char>>)
    ensures
        slashed(style, text::join(parts, seq![style.separator()])) == text::join(
            parts.map_values(|p: Seq<char>| slashed(style, p)),
            slash(),
        ),
    decreases parts.len(),
{
    let shown = parts.map_values(|p: Seq<char>| slashed(style, p));
    let sep = seq![style.separator()];
    if parts.len() == 0 {
        assert(slashed(style, text::join(parts, sep)) =~= text::join(shown, slash()));
    } else if parts.len() == 1 {
    } else {
        lemma_slashed_join(style, parts.drop_last());
        assert(shown.drop_last() =~= parts.drop_last().map_values(
            |p: Seq<char>| slashed(style, p),
        ));
        assert(slashed(style, text::join(parts, sep)) =~= text::join(shown, slash()));
    }
}

/// Reading a rendered path gives back the components that were rendered, unless its text
/// starts like a drive or share.
pub proof fn law_render_then_read(style: PathStyle, path: Seq<Seq<char>>)
    requires
        well_formed(path),
        forall|i: int| 0 <= i < path.len() ==> slashed(style, #[trigger] path[i]) == path[i],
        prefix_length(style, render(style, path)) == 0,
    ensures
        components(style, render(style, path)) == path,
{
    let shown = render(style, path);
    let sep = seq![style.separator()];
    assert(shown.skip(0) =~= shown);
    assert(path.map_values(|p: Seq<char>| slashed(style, p)) =~= path);
    if path.len() > 0 && path[0] == root() {
        let rest = path.skip(1);
        assert(rest.map_values(|p: Seq<char>| slashed(style, p)) =~= rest) by {
            assert forall|i: int| 0 <= i < rest.len() implies slashed(style, #[trigger] rest[i])
                == rest[i] by {
                assert(rest[i] == path[i + 1]);
            }
        }
        lemma_slashed_join(style, rest);
        assert(slashed(style, shown) =~= plain_render(path));
    } else {
        lemma_slashed_join(style, path);
    }
    lemma_render_then_read(path);
}

proof fn lemma_plain_push(base: Seq<char>, tail: Seq<char>)
    requires
        base.len() > 0,
    ensures
        plain_components(base.push('/') + tail) == plain_components(base) + names(
            text::split_on(tail, '/'),
        ),
{
    let whole = base.push('/') + tail;
    assert(whole =~= base + seq!['/'] + tail);
    lemma_split_at(base, tail);
    lemma_split_not_empty(base);
    lemma_names_concat(text::split_on(base, '/'), text::split_on(tail, '/'));
    assert(text::split_on(whole, '/')[0] == text::split_on(base, '/')[0]);
    assert(start(whole) == start(base));
    assert(plain_components(whole) =~= plain_components(base) + names(text::split_on(tail, '/')));
}

/// A slash at the end does not matter.
proof fn lemma_plain_trailing(base: Seq<char>)
    requires
        base.len() > 0,
    ensures
        plain_components(base.push('/')) == plain_components(base),
{
    let none = Seq::<char>::empty();
    lemma_plain_push(base, none);
    lemma_split_none(none);
    lemma_names_blank(none);
    assert(base.push('/') + none =~= base.push('/'));
    assert(plain_components(base) + Seq::<Seq<char>>::empty() =~= plain_components(base));
}

/// What stands behind a slash at the end of a text adds its names.
proof fn lemma_plain_behind_slash(base: Seq<char>, tail: Seq<char>)
    requires
        base.len() > 0,
        base.last() == '/',
    ensures
        plain_components(base + tail) == plain_components(base) + names(text::split_on(tail, '/')),
{
    let front = base.drop_last();
    assert(front.push('/') =~= base);
    if front.len() > 0 {
        lemma_plain_push(front, tail);
        lemma_plain_trailing(front);
    } else {
        let none = Seq::<char>::empty();
        assert(front =~= none);
        assert(base + tail =~= none + seq!['/'] + tail);
        assert(base =~= none + seq!['/'] + none);
        lemma_split_at(none, tail);
        lemma_split_at(none, none);
        lemma_split_none(none);
        lemma_names_blank(none);
        lemma_names_concat(seq![none], text::split_on(tail, '/'));
        lemma_names_concat(seq![none], seq![none]);
        assert(names(text::split_on(base, '/')) =~= Seq::<Seq<char>>::empty());
        assert(plain_components(base + tail) =~= plain_components(base) + names(
            text::split_on(tail, '/'),
        ));
    }
}

proof fn lemma_run_length(style: PathStyle, literal: bool, s: Seq<char>, from: int)
    requires
        0 <= from,
    ensures
        0 <= run_length(style, literal, s, from),
        from <= s.len() ==> from + run_length(style, literal, s, from) <= s.len(),
        from >= s.len() ==> run_length(style, literal, s, from) == 0,
    decreases s.len() - from,
{
    if from < s.len() && !ends_run(style, literal, s[from]) {
        lemma_run_length(style, literal, s, from + 1);
    }
}

/// A prefix fits into its path, and only a drive is shorter than four characters.
proof fn lemma_prefix_fits(style: PathStyle, path: Seq<char>)
    ensures
        0 <= prefix_length(style, path) <= path.len(),
        prefix_length(style, path) > 0 && !has_drive(style, path) ==> prefix_length(style, path)
            >= 4,
{
    if path.len() >= 2 {
        lemma_run_length(style, false, path, 2);
        lemma_run_length(style, false, path, 3 + run_length(style, false, path, 2));
    }
    if path.len() >= 4 {
        lemma_run_length(style, false, path, 4);
        lemma_run_length(style, true, path, 4);
    }
    if path.len() >= 8 {
        lemma_run_length(style, true, path, 8);
        lemma_run_length(style, true, path, 9 + run_length(style, true, path, 8));
    }
}

/// The prefix of a verbatim path is never empty.
proof fn lemma_verbatim_prefix(style: PathStyle, path: Seq<char>)
    requires
        is_verbatim(style, path),
    ensures
        !has_drive(style, path),
        prefix_length(style, path) >= 4,
        has_unc(style, path) ==> prefix_length(style, path) >= 8,
{
    lemma_run_length(style, true, path, 4);
    lemma_run_length(style, true, path, 8);
    lemma_run_length(style, true, path, 9 + run_length(style, true, path, 8));
}

/// A longer path with a prefix of the same length has the same prefix.
proof fn lemma_prefix_kept(style: PathStyle, base: Seq<char>, whole: Seq<char>)
    requires
        prefix_length(style, whole) == prefix_length(style, base),
        base.len() <= whole.len(),
        whole.take(base.len() as int) == base,
    ensures
        has_drive(style, whole) == has_drive(style, base),
        prefix_length(style, base) > 0 ==> is_verbatim(style, whole) == is_verbatim(style, base),
        prefix_length(style, base) > 0 ==> prefix_component(style, whole) == prefix_component(
            style,
            base,
        ),
        is_verbatim(style, base) ==> is_verbatim(style, whole),
{
    let n = prefix_length(style, base);
    lemma_prefix_fits(style, base);
    lemma_prefix_fits(style, whole);
    assert forall|i: int| 0 <= i < base.len() implies whole[i] == base[i] by {
        assert(whole.take(base.len() as int)[i] == whole[i]);
    }
    assert(whole.take(n) =~= base.take(n));
    if has_drive(style, whole) && !has_drive(style, base) {
        assert(n == 2);
    }
    if is_verbatim(style, whole) {
        lemma_verbatim_prefix(style, whole);
    }
    if is_verbatim(style, base) {
        lemma_verbatim_prefix(style, base);
    }
}

/// Whether a separator at the end of a path is idle. It is not behind a drive or a verbatim
/// prefix with nothing else, whose root it is; nor where it is a slash behind a verbatim path,
/// which is part of a name; nor where it turns the path into a device or a verbatim path. On
/// Unix it always is, behind a path that is not empty.
pub open spec fn is_idle(style: PathStyle, path: Seq<char>, sep: char) -> bool {
    &&& path.len() > 0
    &&& style.separates(sep)
    &&& prefix_length(style, path.push(sep)) == prefix_length(style, path)
    &&& !(prefix_length(style, path) == path.len() && (has_drive(style, path) || is_verbatim(
        style,
        path,
    )))
    &&& is_verbatim(style, path) ==> sep == '\\'
}

/// An idle separator at the end of a path does not matter.
pub proof fn law_trailing_separator(style: PathStyle, path: Seq<char>, sep: char)
    requires
        is_idle(style, path, sep),
    ensures
        components(style, path.push(sep)) == components(style, path),
{
    let longer = path.push(sep);
    let n = prefix_length(style, path);
    lemma_prefix_fits(style, path);
    assert(longer.take(path.len() as int) =~= path);
    lemma_prefix_kept(style, path, longer);
    let rest = slashed(style, path.skip(n));
    let longer_rest = slashed(style, longer.skip(n));
    assert(longer_rest =~= rest.push('/'));
    if n == 0 || has_drive(style, path) {
        lemma_plain_trailing(rest);
    } else if is_verbatim(style, path) {
        let body = path.skip(n).skip(1);
        assert(longer.skip(n).skip(1) =~= body.push('\\'));
        assert(body.push('\\').drop_last() =~= body);
        let pieces = text::split_on(body, '\\');
        assert(pieces.push(Seq::<char>::empty()).drop_last() =~= pieces);
        assert(filled(text::split_on(body.push('\\'), '\\')) == filled(pieces));
    } else {
        lemma_names_trailing(rest);
    }
}

/// A relative text seen from some components adds its names to them.
proof fn lemma_joined_relative(base: Seq<Seq<char>>, t: Seq<char>)
    requires
        base.len() > 0,
        t.len() > 0 ==> t[0] != '/',
    ensures
        joined(base, plain_components(t)) == base + names(text::split_on(t, '/')),
{
    let added = names(text::split_on(t, '/'));
    let all = plain_components(t);
    lemma_pieces_hold_no_slash(t);
    lemma_names_are_names(text::split_on(t, '/'));
    if start(t).len() > 0 {
        assert(start(t) == seq![here()]);
        assert(all[0] == here());
        assert(here().len() != root().len());
        assert(all.skip(1) =~= added);
    } else {
        assert(all =~= added);
        if added.len() > 0 {
            assert(is_name(added[0]));
        }
    }
}

/// What stands behind a separator adds its names.
proof fn lemma_names_behind(b: Seq<char>, t: Seq<char>)
    ensures
        names(text::split_on(b.push('/') + t, '/')) == names(text::split_on(b, '/')) + names(
            text::split_on(t, '/'),
        ),
{
    assert(b.push('/') + t =~= b + seq!['/'] + t);
    lemma_split_at(b, t);
    lemma_names_concat(text::split_on(b, '/'), text::split_on(t, '/'));
}

/// The names in front of a slash at the end.
proof fn lemma_names_trailing(b: Seq<char>)
    ensures
        names(text::split_on(b.push('/'), '/')) == names(text::split_on(b, '/')),
{
    let none = Seq::<char>::empty();
    lemma_names_behind(b, none);
    lemma_split_none(none);
    lemma_names_blank(none);
    assert(b.push('/') + none =~= b.push('/'));
    assert(names(text::split_on(b, '/')) + Seq::<Seq<char>>::empty() =~= names(
        text::split_on(b, '/'),
    ));
}

/// What a relative tail adds to the components of a base that is not empty.
#[verifier::spinoff_prover]
#[verifier::rlimit(60)]
proof fn lemma_pushed_adds_names(style: PathStyle, base: Seq<char>, tail: Seq<char>)
    requires
        base.len() > 0,
        tail.len() > 0 ==> !style.separates(tail[0]),
        prefix_length(style, tail) == 0,
        !is_verbatim(style, base),
        !(base.len() == 2 && has_drive(style, base)),
        prefix_length(style, pushed(style, base, tail)) == prefix_length(style, base),
    ensures
        components(style, pushed(style, base, tail)) == components(style, base) + names(
            text::split_on(slashed(style, tail), '/'),
        ),
{
    let whole = pushed(style, base, tail);
    let n = prefix_length(style, base);
    lemma_prefix_fits(style, base);
    let b = slashed(style, base.skip(n));
    let t = slashed(style, tail);
    let added = names(text::split_on(t, '/'));
    let rest = slashed(style, whole.skip(n));
    assert(whole.take(base.len() as int) =~= base);
    lemma_prefix_kept(style, base, whole);
    if tail.len() == 0 && style.separates(base.last()) {
        let none = Seq::<char>::empty();
        assert(whole =~= base);
        assert(t =~= none);
        lemma_split_none(none);
        lemma_names_blank(none);
    } else if style.separates(base.last()) {
        if n == base.len() && n > 4 {
            lemma_prefix_end(style, base);
        } else if n == base.len() {
            // A device without a name, which gets one by the tail.
            assert(whole[4] == tail[0]);
            lemma_run_length(style, false, whole, 5);
        }
        assert(rest =~= b + t);
        assert(b.last() == '/');
        lemma_plain_behind_slash(b, t);
        let front = b.drop_last();
        assert(front.push('/') =~= b);
        lemma_names_behind(front, t);
        lemma_names_trailing(front);
    } else {
        assert(rest =~= b.push('/') + t);
        if b.len() > 0 {
            lemma_plain_push(b, t);
        }
        lemma_names_behind(b, t);
    }
    assert(components(style, whole) =~= components(style, base) + added);
}

/// Reading the text of `tail` seen from `base` gives the components of the one seen from the
/// other, for a tail that does not stand for itself. Left out are a base that is nothing but a
/// drive, whose text takes no separator, a text that gets its prefix only by the tail, and a
/// verbatim base, of which `law_verbatim_base_keeps_its_prefix` speaks.
pub proof fn law_pushed_path_reads_back(style: PathStyle, base: Seq<char>, tail: Seq<char>)
    requires
        prefix_length(style, tail) == 0,
        tail.len() > 0 ==> !style.separates(tail[0]),
        !is_verbatim(style, base),
        !(base.len() == 2 && has_drive(style, base)),
        base.len() > 0 ==> prefix_length(style, pushed(style, base, tail)) == prefix_length(
            style,
            base,
        ),
    ensures
        components(style, pushed(style, base, tail)) == joined(
            components(style, base),
            components(style, tail),
        ),
{
    let t = slashed(style, tail);
    assert(tail.skip(0) =~= tail);
    if base.len() == 0 {
        let none = Seq::<char>::empty();
        assert(base =~= none);
        assert(pushed(style, base, tail) =~= tail);
        assert(slashed(style, base.skip(0)) =~= none);
        lemma_split_none(none);
        lemma_names_blank(none);
        assert(components(style, base) =~= Seq::<Seq<char>>::empty());
    } else {
        lemma_pushed_adds_names(style, base, tail);
        lemma_not_empty(style, base);
        lemma_joined_relative(components(style, base), t);
    }
}

/// A run holds no separator.
proof fn lemma_run_is_plain(style: PathStyle, s: Seq<char>, from: int, i: int)
    requires
        0 <= from <= i < from + run_length(style, false, s, from),
    ensures
        i < s.len(),
        !style.separates(s[i]),
    decreases s.len() - from,
{
    if from < i {
        lemma_run_is_plain(style, s, from + 1, i);
    }
}

/// A base with a share for a prefix ends in a separator only behind that prefix, or where the
/// prefix is a device without a name.
proof fn lemma_prefix_end(style: PathStyle, path: Seq<char>)
    requires
        !is_verbatim(style, path),
        prefix_length(style, path) > 4,
        prefix_length(style, path) == path.len(),
    ensures
        !style.separates(path.last()),
{
    let last = path.len() - 1;
    if path[2] == '.' && style.separates(path[3]) {
        lemma_run_is_plain(style, path, 4, last);
    } else {
        let server = run_length(style, false, path, 2);
        lemma_run_length(style, false, path, 2);
        lemma_run_is_plain(style, path, 3 + server, last);
    }
}

/// A verbatim base keeps its prefix, whatever tail without a prefix is put behind it.
pub proof fn law_verbatim_base_keeps_its_prefix(
    style: PathStyle,
    base: Seq<char>,
    tail: Seq<char>,
)
    requires
        is_verbatim(style, base),
        prefix_length(style, tail) == 0,
    ensures
        base.take(prefix_length(style, base)).is_prefix_of(pushed(style, base, tail)),
{
    lemma_prefix_fits(style, base);
}

proof fn lemma_first_piece(s: Seq<char>)
    requires
        s.len() > 0,
        s[0] != '/',
    ensures
        text::split_on(s, '/')[0].len() > 0,
    decreases s.len(),
{
    let before = s.drop_last();
    if s.len() > 1 {
        lemma_first_piece(before);
        lemma_split_not_empty(before);
    } else {
        assert(before =~= Seq::<char>::empty());
        reveal_with_fuel(text::split_on, 2);
    }
}

proof fn lemma_names_keep_the_first(pieces: Seq<Seq<char>>)
    requires
        pieces.len() > 0,
        pieces[0].len() > 0,
        pieces[0] != here(),
    ensures
        names(pieces).len() > 0,
    decreases pieces.len(),
{
    if pieces.len() > 1 {
        lemma_names_keep_the_first(pieces.drop_last());
    }
}

/// A path that is not empty has components.
pub proof fn lemma_not_empty(style: PathStyle, path: Seq<char>)
    requires
        path.len() > 0,
    ensures
        components(style, path).len() > 0,
{
    let n = prefix_length(style, path);
    lemma_prefix_fits(style, path);
    if n == 0 {
        let rest = slashed(style, path.skip(0));
        if rest[0] != '/' {
            lemma_first_piece(rest);
            lemma_split_not_empty(rest);
            if text::split_on(rest, '/')[0] != here() {
                lemma_names_keep_the_first(text::split_on(rest, '/'));
            }
        }
    }
}

/// A character that a text does not hold is in none of its pieces.
proof fn lemma_pieces_avoid(s: Seq<char>, c: char)
    requires
        !s.contains(c),
    ensures
        forall|i: int|
            0 <= i < text::split_on(s, '/').len() ==> !(#[trigger] text::split_on(
                s,
                '/',
            )[i]).contains(c),
    decreases s.len(),
{
    if s.len() > 0 {
        let shorter = s.drop_last();
        let before = text::split_on(shorter, '/');
        let after = text::split_on(s, '/');
        assert forall|i: int| 0 <= i < shorter.len() implies shorter[i] != c by {
            assert(s.contains(s[i]));
        }
        assert(s.contains(s[s.len() - 1]));
        lemma_pieces_avoid(shorter, c);
        lemma_split_not_empty(shorter);
        assert forall|i: int| 0 <= i < after.len() implies !(#[trigger] after[i]).contains(c) by {
            if i < after.len() - 1 {
                assert(after[i] == before[i]);
            } else if s.last() != '/' {
                let piece = before.last();
                assert(!before[before.len() - 1].contains(c));
                assert forall|j: int| 0 <= j < after[i].len() implies after[i][j] != c by {
                    if j < piece.len() {
                        assert(piece.contains(piece[j]));
                    }
                }
            }
        }
    }
}

proof fn lemma_names_avoid(pieces: Seq<Seq<char>>, c: char)
    requires
        forall|i: int| 0 <= i < pieces.len() ==> !(#[trigger] pieces[i]).contains(c),
    ensures
        forall|i: int| 0 <= i < names(pieces).len() ==> !(#[trigger] names(pieces)[i]).contains(c),
    decreases pieces.len(),
{
    if pieces.len() > 0 {
        let front = pieces.drop_last();
        assert forall|i: int| 0 <= i < front.len() implies !(#[trigger] front[i]).contains(c) by {
            assert(front[i] == pieces[i]);
        }
        lemma_names_avoid(front, c);
        assert(!pieces[pieces.len() - 1].contains(c));
        let all = names(pieces);
        assert forall|i: int| 0 <= i < all.len() implies !(#[trigger] all[i]).contains(c) by {
            if i < names(front).len() {
                assert(all[i] == names(front)[i]);
            }
        }
    }
}

/// The names of a text with a slash for every separator hold no separator.
proof fn lemma_names_hold_no_separator(style: PathStyle, s: Seq<char>, i: int)
    requires
        0 <= i < names(text::split_on(slashed(style, s), '/')).len(),
    ensures
        is_name(names(text::split_on(slashed(style, s), '/'))[i]),
        forall|j: int|
            0 <= j < names(text::split_on(slashed(style, s), '/'))[i].len() ==> !style.separates(
                #[trigger] names(text::split_on(slashed(style, s), '/'))[i][j],
            ),
{
    let plain = slashed(style, s);
    let all = names(text::split_on(plain, '/'));
    lemma_pieces_hold_no_slash(plain);
    lemma_names_are_names(text::split_on(plain, '/'));
    assert(is_name(all[i]));
    assert forall|j: int| 0 <= j < all[i].len() implies !style.separates(#[trigger] all[i][j]) by {
        assert(all[i].contains(all[i][j]));
        if style == PathStyle::Windows {
            assert(!plain.contains('\\'));
            lemma_pieces_avoid(plain, '\\');
            lemma_names_avoid(text::split_on(plain, '/'), '\\');
            assert(!all[i].contains('\\'));
        }
    }
}

/// Behind the first component of a path that is not verbatim stand names, but for the root or
/// "here" that may follow a prefix.
proof fn lemma_later_components(style: PathStyle, path: Seq<char>, i: int)
    requires
        !is_verbatim(style, path),
        1 <= i < components(style, path).len(),
    ensures
        ({
            let part = components(style, path)[i];
            ||| i == 1 && prefix_length(style, path) > 0 && (part == root() || part == here())
            ||| is_name(part) && forall|j: int|
                0 <= j < part.len() ==> !style.separates(#[trigger] part[j])
        }),
{
    let n = prefix_length(style, path);
    let rest = path.skip(n);
    let plain = slashed(style, rest);
    let own = names(text::split_on(plain, '/'));
    let all = components(style, path);
    if n == 0 {
        let at = i - start(plain).len();
        assert(all[i] == own[at]);
        lemma_names_hold_no_separator(style, rest, at);
    } else if has_drive(style, path) {
        let at = i - 1 - start(plain).len();
        if at >= 0 {
            assert(all[i] == own[at]);
            lemma_names_hold_no_separator(style, rest, at);
        } else {
            assert(all[i] == start(plain)[0]);
        }
    } else if i > 1 {
        assert(all[i] == own[i - 2]);
        lemma_names_hold_no_separator(style, rest, i - 2);
    } else {
        lemma_prefix_fits(style, path);
        assert(all[1] == root());
    }
}

/// Parts that are joined start with the first of them.
proof fn lemma_join_starts(parts: Seq<Seq<char>>, sep: Seq<char>)
    requires
        parts.len() > 0,
        parts[0].len() > 0,
    ensures
        text::join(parts, sep).len() > 0,
        text::join(parts, sep)[0] == parts[0][0],
    decreases parts.len(),
{
    if parts.len() > 1 {
        lemma_join_starts(parts.drop_last(), sep);
    }
}

/// What stands behind the first components of a path, put below a base, has the components of
/// the base and behind them those that were left of the path. On Windows this leaves out what
/// is read in another way: verbatim paths, a rest that starts with the root or "here" behind a
/// prefix alone or like a drive, and a base that is a drive alone or only becomes a share with
/// the rest behind it.
pub proof fn law_stripped_path_goes_below_the_base(
    style: PathStyle,
    path: Seq<char>,
    n: int,
    base: Seq<char>,
)
    requires
        0 < n <= components(style, path).len(),
        style == PathStyle::Windows ==> {
            let below = components(style, path).skip(n);
            let tail = render(style, below);
            &&& !is_verbatim(style, path)
            &&& !is_verbatim(style, base)
            &&& below.len() > 0 ==> below[0] != root() && below[0] != here()
            &&& prefix_length(style, tail) == 0
            &&& !(base.len() == 2 && has_drive(style, base))
            &&& base.len() > 0 ==> prefix_length(style, pushed(style, base, tail))
                == prefix_length(style, base)
        },
    ensures
        components(style, pushed(style, base, render(style, components(style, path).skip(n))))
            == components(style, base) + components(style, path).skip(n),
{
    let all = components(style, path);
    let below = all.skip(n);
    let tail = render(style, below);
    let sep = seq![style.separator()];
    assert forall|i: int| 0 <= i < below.len() implies is_name(#[trigger] below[i]) && slashed(
        style,
        below[i],
    ) == below[i] by {
        assert(below[i] == all[n + i]);
        lemma_later_components(style, path, n + i);
        assert(slashed(style, below[i]) =~= below[i]);
    }
    assert(well_formed(below));
    if below.len() > 0 {
        assert(is_name(below[0]));
        lemma_later_components(style, path, n);
        lemma_join_starts(below, sep);
        assert(tail[0] == below[0][0]);
    }
    law_render_then_read(style, below);
    law_pushed_path_reads_back(style, base, tail);
    assert(joined(components(style, base), below) =~= components(style, base) + below);
}

/// What is left of a Unix path behind its first components is written as a relative path, its
/// components with single slashes between them.
pub proof fn law_stripped_path_is_relative(path: Seq<char>, n: int)
    requires
        0 < n <= components(PathStyle::Unix, path).len(),
    ensures
        ({
            let below = components(PathStyle::Unix, path).skip(n);
            let tail = render(PathStyle::Unix, below);
            &&& tail == text::join(below, seq!['/'])
            &&& tail.len() > 0 ==> tail[0] != '/'
        }),
{
    let below = components(PathStyle::Unix, path).skip(n);
    if below.len() > 0 {
        lemma_later_components(PathStyle::Unix, path, n);
        assert(below[0] == components(PathStyle::Unix, path)[n]);
        lemma_join_starts(below, seq!['/']);
    }
}

/// How a Unix path is read: a text without a slash is one component, and a slash puts the
/// components on its two sides side by side. A slash in front stands for the root. A further
/// root or a "." has no meaning behind another component.
pub proof fn law_slashes_divide_components(name: Seq<char>, base: Seq<char>, tail: Seq<char>)
    ensures
        !name.contains('/') ==> components(PathStyle::Unix, name) == (if name.len() == 0 {
            Seq::<Seq<char>>::empty()
        } else {
            seq![name]
        }),
        ({
            let unix = PathStyle::Unix;
            let left = if base.len() == 0 {
                seq![Seq::<char>::empty()]
            } else {
                components(unix, base)
            };
            let right = components(unix, tail);
            let idle = right.len() > 0 && (right[0].len() == 0 || right[0] == seq!['.']);
            components(unix, base.push('/') + tail) == left + (if idle {
                right.skip(1)
            } else {
                right
            })
        }),
{
    let unix = PathStyle::Unix;
    assert forall|s: Seq<char>| #[trigger] components(unix, s) == plain_components(s) by {
        assert(slashed(unix, s.skip(0)) =~= s);
    }
    if !name.contains('/') {
        lemma_split_none(name);
        if name.len() > 0 {
            assert(name.contains(name[0]));
        }
        if name.len() == 0 || name == here() {
            lemma_names_blank(name);
        } else {
            reveal_with_fuel(names, 2);
            assert(seq![name].drop_last() =~= Seq::<Seq<char>>::empty());
        }
        assert(components(unix, name) =~= (if name.len() == 0 {
            Seq::<Seq<char>>::empty()
        } else {
            seq![name]
        }));
    }
    let right = plain_components(tail);
    let own = names(text::split_on(tail, '/'));
    lemma_pieces_hold_no_slash(tail);
    lemma_names_are_names(text::split_on(tail, '/'));
    if start(tail).len() > 0 {
        assert(right.skip(1) =~= own);
    } else {
        assert(right =~= own);
        if own.len() > 0 {
            assert(is_name(own[0]));
        }
    }
    let whole = base.push('/') + tail;
    if base.len() == 0 {
        let none = Seq::<char>::empty();
        assert(base =~= none);
        assert(whole =~= none + seq!['/'] + tail);
        lemma_split_at(none, tail);
        lemma_split_none(none);
        lemma_names_concat(seq![none], text::split_on(tail, '/'));
        lemma_names_blank(none);
        assert(plain_components(whole) =~= seq![root()] + own);
    } else {
        lemma_plain_push(base, tail);
    }
}

/// On Windows a backslash is read as a slash, in a path without a prefix; behind the letter and
/// colon of a drive the rest is read as such a path.
pub proof fn law_backslash_is_a_slash(path: Seq<char>, plain: Seq<char>)
    requires
        plain.len() == path.len(),
        forall|i: int|
            0 <= i < path.len() ==> #[trigger] plain[i] == (if path[i] == '\\' {
                '/'
            } else {
                path[i]
            }),
    ensures
        prefix_length(PathStyle::Windows, path) == 0 ==> components(PathStyle::Windows, path)
            == components(PathStyle::Unix, plain),
        path.len() >= 2 && path[1] == ':' && ('a' as u32 <= path[0] as u32 <= 'z' as u32
            || 'A' as u32 <= path[0] as u32 <= 'Z' as u32) ==> components(PathStyle::Windows, path)
            == seq![seq![path[0], ':']] + components(PathStyle::Unix, plain.skip(2)),
{
    let windows = PathStyle::Windows;
    let unix = PathStyle::Unix;
    if prefix_length(windows, path) == 0 {
        assert(slashed(windows, path.skip(0)) =~= plain);
        assert(slashed(unix, plain.skip(0)) =~= plain);
    }
    if path.len() >= 2 && path[1] == ':' && ('a' as u32 <= path[0] as u32 <= 'z' as u32 || 'A'
        as u32 <= path[0] as u32 <= 'Z' as u32) {
        text::lemma_upper(path[0]);
        assert(slashed(windows, path.skip(2)) =~= plain.skip(2));
        assert(slashed(unix, plain.skip(2).skip(0)) =~= plain.skip(2));
        text::lemma_code_tells(path[0], '\\');
        text::lemma_code_tells(path[0], '/');
        assert(slashed(windows, path.take(2)) =~= seq![path[0], ':']);
        assert(components(windows, path) =~= seq![seq![path[0], ':']] + components(
            unix,
            plain.skip(2),
        ));
    }
}

/// On Unix no path has a prefix, a text is put below another behind one slash, and an absolute
/// one replaces it.
pub proof fn law_unix_path_is_put_below(base: Seq<char>, tail: Seq<char>)
    ensures
        prefix_length(PathStyle::Unix, base) == 0,
        tail.len() > 0 && tail[0] == '/' ==> pushed(PathStyle::Unix, base, tail) == tail,
        !(tail.len() > 0 && tail[0] == '/') && (base.len() == 0 || base.last() == '/') ==> pushed(
            PathStyle::Unix,
            base,
            tail,
        ) == base + tail,
        !(tail.len() > 0 && tail[0] == '/') && base.len() > 0 && base.last() != '/' ==> pushed(
            PathStyle::Unix,
            base,
            tail,
        ) == base + seq!['/'] + tail,
{
    assert(base.take(0) + tail =~= tail);
    assert(base.push('/') + tail =~= base + seq!['/'] + tail);
}

/// A Unix path lies below another exactly when the components of the other lead it.
pub proof fn law_unix_prefix_is_exact(path: Seq<Seq<char>>, prefix: Seq<Seq<char>>)
    ensures
        starts_with(PathStyle::Unix, path, prefix) <==> prefix.is_prefix_of(path),
{
    if starts_with(PathStyle::Unix, path, prefix) {
        assert(prefix =~= path.take(prefix.len() as int));
    }
}

/// A Windows path lies below another exactly when the components of the other lead it, where
/// the letter of a drive may have either case.
pub proof fn law_windows_prefix_ignores_the_case_of_a_drive(
    path: Seq<Seq<char>>,
    prefix: Seq<Seq<char>>,
)
    requires
        prefix.len() > 0,
        path.len() > 0,
    ensures
        prefix.is_prefix_of(path) ==> starts_with(PathStyle::Windows, path, prefix),
        prefix.skip(1).is_prefix_of(path.skip(1)) && path[0].len() == 2 && prefix[0].len() == 2
            && path[0][1] == ':' && prefix[0][1] == ':' && 'a' as u32 <= path[0][0] as u32
            <= 'z' as u32 && prefix[0][0] as u32 == path[0][0] as u32 - 32 ==> starts_with(
            PathStyle::Windows,
            path,
            prefix,
        ),
        starts_with(PathStyle::Windows, path, prefix) ==> prefix.skip(1).is_prefix_of(path.skip(1))
            && text::same_ignoring_case(path[0], prefix[0]),
        starts_with(PathStyle::Windows, path, prefix) && !(path[0].len() == 2 && path[0][1] == ':')
            && !(path[0].len() == 6 && path[0].take(4) == seq!['\\', '\\', '?', '\\'] && path[0][5]
            == ':') ==> prefix.is_prefix_of(path),
        prefix.skip(1).is_prefix_of(path.skip(1)) && path[0].len() == 6 && path[0].take(4)
            == seq!['\\', '\\', '?', '\\'] && path[0][5] == ':' && is_letter(path[0][4])
            && text::same_ignoring_case(path[0], prefix[0]) ==> starts_with(
            PathStyle::Windows,
            path,
            prefix,
        ),
{
    let windows = PathStyle::Windows;
    if prefix.skip(1).is_prefix_of(path.skip(1)) && path[0].len() == 2 && prefix[0].len() == 2
        && path[0][1] == ':' && prefix[0][1] == ':' && 'a' as u32 <= path[0][0] as u32 <= 'z' as u32
        && prefix[0][0] as u32 == path[0][0] as u32 - 32 {
        let (a, b) = (path[0], prefix[0]);
        text::lemma_upper(a[0]);
        text::lemma_upper(b[0]);
        text::lemma_code_tells(text::upper(a[0]), text::upper(b[0]));
        assert(text::uppercase(a) =~= text::uppercase(b));
        assert forall|i: int| 1 <= i < prefix.len() implies path[i] == #[trigger] prefix[i] by {
            assert(prefix.skip(1)[i - 1] == path.skip(1)[i - 1]);
        }
    }
    let opening = seq!['\\', '\\', '?', '\\'];
    if is_verbatim(windows, path[0]) {
        assert(path[0].take(4) =~= opening);
    }
    if path[0].len() == 6 && path[0].take(4) == opening {
        assert(opening[1] == '\\' && opening[2] == '?' && opening[3] == '\\');
        assert(path[0].take(4)[0] == path[0][0]);
        assert(path[0].take(4)[1] == path[0][1]);
        assert(path[0].take(4)[2] == path[0][2]);
        assert(path[0].take(4)[3] == path[0][3]);
        if prefix.skip(1).is_prefix_of(path.skip(1)) {
            assert forall|i: int| 1 <= i < prefix.len() implies path[i] == #[trigger] prefix[i] by {
                assert(prefix.skip(1)[i - 1] == path.skip(1)[i - 1]);
            }
        }
    }
    if starts_with(windows, path, prefix) {
        assert(prefix.skip(1) =~= path.skip(1).take(prefix.len() - 1));
        if path[0] == prefix[0] {
            assert(prefix =~= path.take(prefix.len() as int));
        }
    }
}

/// The file name of a path is its last component, unless that is the root, ".", ".." or the
/// prefix.
pub proof fn law_file_name_is_the_last_component(style: PathStyle, path: Seq<char>)
    ensures
        ({
            let all = components(style, path);
            let last = all.last();
            if all.len() == 0 || last.len() == 0 || last == seq!['.'] || last == seq!['.', '.'] || (
            all.len() == 1 && prefix_length(style, path) > 0) {
                file_name(style, path) is None
            } else {
                file_name(style, path) == Some(last)
            }
        }),
{
    let all = components(style, path);
    if all.len() > 0 && all.last().len() == 0 {
        assert(all.last() =~= root());
    }
}

/// A relative path is written as its components with one separator between them, an absolute
/// one with a separator in front as well.
pub proof fn law_rendered_path_has_single_separators(style: PathStyle, parts: Seq<Seq<char>>)
    ensures
        ({
            let sep = if style == PathStyle::Windows {
                '\\'
            } else {
                '/'
            };
            &&& parts.len() > 0 && parts[0].len() > 0 ==> render(style, parts) == text::join(
                parts,
                seq![sep],
            )
            &&& render(style, seq![Seq::<char>::empty()] + parts) == seq![sep] + text::join(
                parts,
                seq![sep],
            )
        }),
{
    let whole = seq![Seq::<char>::empty()] + parts;
    assert(whole[0] =~= root());
    assert(whole.skip(1) =~= parts);
}

/// On Windows a text is put below another behind one backslash, unless the other ends in a
/// separator or is a drive alone; an absolute one keeps the prefix of the other, and one with a
/// prefix of its own replaces it.
pub proof fn law_windows_path_is_put_below(base: Seq<char>, tail: Seq<char>)
    requires
        !is_verbatim(PathStyle::Windows, base),
    ensures
        ({
            let windows = PathStyle::Windows;
            let rooted = tail.len() > 0 && (tail[0] == '/' || tail[0] == '\\');
            let open = base.len() == 0 || base.last() == '/' || base.last() == '\\' || (base.len()
                == 2 && base[1] == ':' && is_letter(base[0]));
            pushed(windows, base, tail) == (if prefix_length(windows, tail) > 0 {
                tail
            } else if rooted {
                base.take(prefix_length(windows, base)) + tail
            } else if open {
                base + tail
            } else {
                base + seq!['\\'] + tail
            })
        }),
{
    assert(base.push('\\') + tail =~= base + seq!['\\'] + tail);
}

/// A run reaches up to the next separator.
proof fn lemma_run_ends(style: PathStyle, literal: bool, s: Seq<char>, from: int, len: int)
    requires
        0 <= from,
        0 <= len,
        from + len <= s.len(),
        forall|i: int| from <= i < from + len ==> !ends_run(style, literal, #[trigger] s[i]),
        from + len < s.len() ==> ends_run(style, literal, s[from + len]),
    ensures
        run_length(style, literal, s, from) == len,
    decreases len,
{
    if len > 0 {
        lemma_run_ends(style, literal, s, from + 1, len - 1);
    }
}

/// A Windows path of two separators, a server, a separator and a share has these for its first
/// component and the root for its second; what follows is read as behind the root of a Unix
/// path, with a slash for every backslash.
pub proof fn law_share_is_one_component(
    server: Seq<char>,
    share: Seq<char>,
    tail: Seq<char>,
    plain: Seq<char>,
)
    requires
        server.len() > 0,
        share.len() > 0,
        forall|i: int| 0 <= i < server.len() ==> !PathStyle::Windows.separates(#[trigger] server[i]),
        forall|i: int| 0 <= i < share.len() ==> !PathStyle::Windows.separates(#[trigger] share[i]),
        server != seq!['?'],
        server != seq!['.'],
        tail.len() > 0 ==> PathStyle::Windows.separates(tail[0]),
        plain.len() == tail.len(),
        forall|i: int|
            0 <= i < tail.len() ==> #[trigger] plain[i] == (if tail[i] == '\\' {
                '/'
            } else {
                tail[i]
            }),
    ensures
        ({
            let path = seq!['\\', '\\'] + server + seq!['\\'] + share + tail;
            let whole = seq!['/', '/'] + server + seq!['/'] + share;
            let behind = components(PathStyle::Unix, plain);
            components(PathStyle::Windows, path) == seq![whole, Seq::<char>::empty()] + (
            if behind.len() > 0 {
                behind.skip(1)
            } else {
                behind
            })
        }),
{
    let windows = PathStyle::Windows;
    let unix = PathStyle::Unix;
    let path = seq!['\\', '\\'] + server + seq!['\\'] + share + tail;
    let n = 2 + server.len() as int;
    let m = n + 1 + share.len();
    assert(path[2] == server[0]);
    assert(path[n] == '\\');
    assert(path[n + 1] == share[0]);
    assert(server.len() == 1 ==> server =~= seq![server[0]]);
    if path[2] == '?' || path[2] == '.' {
        assert(server.len() > 1);
        assert(path[3] == server[1]);
    }
    assert(path[1] == '\\');
    assert forall|i: int| 2 <= i < n implies !ends_run(windows, false, #[trigger] path[i]) by {
        assert(path[i] == server[i - 2]);
    }
    lemma_run_ends(windows, false, path, 2, server.len() as int);
    assert forall|i: int| n + 1 <= i < m implies !ends_run(windows, false, #[trigger] path[i]) by {
        assert(path[i] == share[i - n - 1]);
    }
    if tail.len() > 0 {
        assert(path[m] == tail[0]);
    }
    lemma_run_ends(windows, false, path, n + 1, share.len() as int);
    assert(prefix_length(windows, path) == m);
    let whole = seq!['/', '/'] + server + seq!['/'] + share;
    assert(slashed(windows, path.take(m)) =~= whole) by {
        assert forall|i: int| 0 <= i < m implies slashed(windows, path.take(m))[i] == whole[i] by {
            if 2 <= i < n {
                assert(path[i] == server[i - 2]);
            } else if i > n {
                assert(path[i] == share[i - n - 1]);
            }
        }
    }
    assert(path.skip(m) =~= tail);
    assert(slashed(windows, tail) =~= plain);
    assert(slashed(unix, plain.skip(0)) =~= plain);
    let behind = components(unix, plain);
    let own = names(text::split_on(plain, '/'));
    assert(behind == start(plain) + own);
    if tail.len() > 0 {
        assert(plain[0] == '/');
        assert(behind.skip(1) =~= own);
    } else {
        assert(plain =~= Seq::<char>::empty());
        lemma_split_none(plain);
        lemma_names_blank(plain);
        assert(behind =~= own);
    }
}

proof fn lemma_filled_concat(a: Seq<Seq<char>>, b: Seq<Seq<char>>)
    ensures
        filled(a + b) == filled(a) + filled(b),
    decreases b.len(),
{
    if b.len() == 0 {
        assert(a + b =~= a);
        assert(filled(a) + filled(b) =~= filled(a));
    } else {
        assert((a + b).drop_last() =~= a + b.drop_last());
        assert((a + b).last() == b.last());
        lemma_filled_concat(a, b.drop_last());
        assert(filled(a + b) =~= filled(a) + filled(b));
    }
}

/// Behind the drive of a verbatim path only backslashes divide: a text without one is one
/// component, dots and slashes included, and a backslash puts the components on its two sides
/// side by side.
pub proof fn law_verbatim_path_is_taken_literally(
    letter: char,
    name: Seq<char>,
    left: Seq<char>,
    right: Seq<char>,
)
    requires
        is_letter(letter),
        !name.contains('\\'),
    ensures
        ({
            let windows = PathStyle::Windows;
            let drive = seq!['\\', '\\', '?', '\\', letter, ':'];
            let below = drive + seq!['\\'];
            let empty = Seq::<char>::empty();
            &&& components(windows, drive) == seq![drive]
            &&& components(windows, below) == seq![drive, empty]
            &&& name.len() > 0 ==> components(windows, below + name) == seq![drive, empty, name]
            &&& components(windows, below + left + seq!['\\'] + right) == components(
                windows,
                below + left,
            ) + components(windows, below + right).skip(2)
        }),
{
    let drive = seq!['\\', '\\', '?', '\\', letter, ':'];
    let below = drive + seq!['\\'];
    let empty = Seq::<char>::empty();
    assert(drive.skip(6) =~= empty);
    assert(drive.take(6) =~= drive);
    lemma_literal(letter, empty);
    assert(below + empty =~= below);
    text::lemma_split_none(empty, '\\');
    reveal_with_fuel(filled, 2);
    assert(seq![empty].drop_last() =~= Seq::<Seq<char>>::empty());
    assert(filled(seq![empty]) =~= Seq::<Seq<char>>::empty());
    assert(components(PathStyle::Windows, below) =~= seq![drive, empty]);
    assert(components(PathStyle::Windows, drive) =~= seq![drive]);
    if name.len() > 0 {
        lemma_literal(letter, name);
        text::lemma_split_none(name, '\\');
        assert(seq![name].drop_last() =~= Seq::<Seq<char>>::empty());
        assert(filled(seq![name]) =~= seq![name]);
        assert(components(PathStyle::Windows, below + name) =~= seq![drive, empty, name]);
    }
    let both = left + seq!['\\'] + right;
    lemma_literal(letter, both);
    lemma_literal(letter, left);
    lemma_literal(letter, right);
    text::lemma_split_at(left, right, '\\');
    lemma_filled_concat(text::split_on(left, '\\'), text::split_on(right, '\\'));
    assert(below + left + seq!['\\'] + right =~= below + both);
    assert(components(PathStyle::Windows, below + right).skip(2) =~= filled(
        text::split_on(right, '\\'),
    ));
    assert(components(PathStyle::Windows, below + both) =~= components(
        PathStyle::Windows,
        below + left,
    ) + filled(text::split_on(right, '\\')));
}

proof fn lemma_literal(letter: char, rest: Seq<char>)
    requires
        is_letter(letter),
    ensures
        ({
            let drive = seq!['\\', '\\', '?', '\\', letter, ':'];
            components(PathStyle::Windows, drive + seq!['\\'] + rest) == seq![drive, root()]
                + filled(text::split_on(rest, '\\'))
        }),
{
    let windows = PathStyle::Windows;
    let drive = seq!['\\', '\\', '?', '\\', letter, ':'];
    let path = drive + seq!['\\'] + rest;
    assert(path.take(6) =~= drive);
    assert(path.skip(6) =~= seq!['\\'] + rest);
    assert(path.skip(6).skip(1) =~= rest);
    assert(path[1] == '\\' && path[2] == '?' && path[4] == letter && path[5] == ':' && path[6]
        == '\\');
    assert(components(windows, path) =~= seq![drive] + (seq![root()] + filled(
        text::split_on(rest, '\\'),
    )));
}

/// What a verbatim base makes of the components put behind it, one after the other: a name is
/// added, "." is dropped, ".." takes the last name away, and the root leads back to the prefix.
pub proof fn law_verbatim_base_resolves_components(
    all: Seq<Seq<char>>,
    parts: Seq<Seq<char>>,
    part: Seq<char>,
)
    requires
        all.len() > 0,
    ensures
        absorbed(all, Seq::empty()) == all,
        ({
            let before = absorbed(all, parts);
            let after = absorbed(all, parts.push(part));
            let named = before.len() > 1 && before.last().len() > 0 && before.last() != seq!['.']
                && before.last() != seq!['.', '.'];
            if part.len() == 0 {
                after == before.take(1) + seq![Seq::<char>::empty()]
            } else if part == seq!['.'] {
                after == before
            } else if part == seq!['.', '.'] {
                after == (if named {
                    before.drop_last()
                } else {
                    before
                })
            } else {
                after == before + seq![part]
            }
        }),
{
    let before = absorbed(all, parts);
    let after = absorbed(all, parts.push(part));
    assert(parts.push(part).drop_last() =~= parts);
    if part.len() == 0 {
        assert(part =~= root());
        assert(after =~= before.take(1) + seq![Seq::<char>::empty()]);
    } else {
        if before.len() > 0 && before.last().len() == 0 {
            assert(before.last() =~= root());
        }
        assert(part[0] == '.' || part != here());
        if part != here() && part != above() {
            assert(after =~= before + seq![part]);
        }
    }
}

/// A verbatim base is written out anew with what it has taken in: its prefix, and behind it the
/// names with single backslashes.
pub proof fn law_verbatim_path_is_put_below(base: Seq<char>, tail: Seq<char>)
    requires
        is_verbatim(PathStyle::Windows, base),
        prefix_length(PathStyle::Windows, tail) == 0,
        tail.len() > 0,
    ensures
        ({
            let windows = PathStyle::Windows;
            let prefix = base.take(prefix_length(windows, base));
            let all = absorbed(components(windows, base), components(windows, tail));
            let rooted = all.len() > 1 && all[1].len() == 0;
            &&& all.len() <= 1 ==> pushed(windows, base, tail) == prefix
            &&& rooted ==> pushed(windows, base, tail) == prefix + seq!['\\'] + text::join(
                all.skip(2),
                seq!['\\'],
            )
            &&& all.len() > 1 && !rooted ==> pushed(windows, base, tail) == prefix + seq!['\\']
                + text::join(all.skip(1), seq!['\\'])
        }),
{
    let all = absorbed(
        components(PathStyle::Windows, base),
        components(PathStyle::Windows, tail),
    );
    if all.len() > 1 && all[1].len() == 0 {
        assert(all[1] =~= root());
    }
}

/// A Windows path has no prefix unless it starts with the letter and colon of a drive or with
/// two separators and, behind them, neither a third one nor the end.
pub proof fn law_other_paths_have_no_prefix(path: Seq<char>)
    requires
        !(path.len() >= 2 && path[1] == ':' && ('a' as u32 <= path[0] as u32 <= 'z' as u32 || 'A'
            as u32 <= path[0] as u32 <= 'Z' as u32)),
        !(path.len() >= 3 && PathStyle::Windows.separates(path[0]) && PathStyle::Windows.separates(
            path[1],
        ) && !PathStyle::Windows.separates(path[2])),
    ensures
        prefix_length(PathStyle::Windows, path) == 0,
{
    if path.len() >= 1 {
        text::lemma_upper(path[0]);
    }
}

/// A device of Windows, two separators, a dot, a separator and a name, is one component, and
/// what follows is seen from its root.
pub proof fn law_device_is_one_component(name: Seq<char>)
    requires
        name.len() > 0,
        forall|i: int| 0 <= i < name.len() ==> !PathStyle::Windows.separates(#[trigger] name[i]),
    ensures
        components(PathStyle::Windows, seq!['\\', '\\', '.', '\\'] + name) == seq![
            seq!['/', '/', '.', '/'] + name,
            Seq::<char>::empty(),
        ],
{
    let windows = PathStyle::Windows;
    let opening = seq!['\\', '\\', '.', '\\'];
    let path = opening + name;
    let none = Seq::<char>::empty();
    assert(path[1] == '\\' && path[2] == '.' && path[3] == '\\');
    assert forall|i: int| 4 <= i < path.len() implies !ends_run(
        windows,
        false,
        #[trigger] path[i],
    ) by {
        assert(path[i] == name[i - 4]);
    }
    lemma_run_ends(windows, false, path, 4, name.len() as int);
    assert(path.take(path.len() as int) =~= path);
    let whole = seq!['/', '/', '.', '/'] + name;
    assert forall|i: int| 0 <= i < path.len() implies slashed(windows, path)[i] == whole[i] by {
        if i >= 4 {
            assert(path[i] == name[i - 4]);
        }
    }
    assert(slashed(windows, path) =~= whole);
    assert(slashed(windows, path.skip(path.len() as int)) =~= none);
    lemma_split_none(none);
    lemma_names_blank(none);
    assert(components(windows, path) =~= seq![whole, none]);
}

/// A verbatim share, or any other verbatim name, is one component.
pub proof fn law_verbatim_prefix_is_one_component(server: Seq<char>, share: Seq<char>)
    requires
        server.len() > 0,
        share.len() > 0,
        !server.contains('\\'),
        !share.contains('\\'),
    ensures
        ({
            let windows = PathStyle::Windows;
            let opening = seq!['\\', '\\', '?', '\\'];
            let unc = opening + seq!['U', 'N', 'C', '\\'] + server + seq!['\\'] + share;
            let other = opening + server;
            &&& components(windows, unc) == seq![unc]
            &&& !(server.len() >= 4 && server[0] == 'U' && server[1] == 'N' && server[2] == 'C'
                && server[3] == '/') && !(server.len() >= 2 && server[1] == ':') ==> components(
                windows,
                other,
            ) == seq![other]
        }),
{
    let windows = PathStyle::Windows;
    let opening = seq!['\\', '\\', '?', '\\'];
    let unc = opening + seq!['U', 'N', 'C', '\\'] + server + seq!['\\'] + share;
    let other = opening + server;
    let n = 8 + server.len() as int;
    assert(unc[1] == '\\' && unc[2] == '?' && unc[3] == '\\' && unc[4] == 'U' && unc[5] == 'N'
        && unc[6] == 'C' && unc[7] == '\\' && unc[n] == '\\');
    assert forall|i: int| 8 <= i < n implies !ends_run(windows, true, #[trigger] unc[i]) by {
        assert(unc[i] == server[i - 8]);
        assert(server.contains(server[i - 8]));
    }
    lemma_run_ends(windows, true, unc, 8, server.len() as int);
    assert forall|i: int| n + 1 <= i < unc.len() implies !ends_run(
        windows,
        true,
        #[trigger] unc[i],
    ) by {
        assert(unc[i] == share[i - n - 1]);
        assert(share.contains(share[i - n - 1]));
    }
    lemma_run_ends(windows, true, unc, n + 1, share.len() as int);
    assert(prefix_length(windows, unc) == unc.len());
    assert(unc.take(unc.len() as int).update(7, '\\') =~= unc);
    assert(unc.skip(unc.len() as int) =~= Seq::<char>::empty());
    assert(components(windows, unc) =~= seq![unc]);
    assert(other[1] == '\\' && other[2] == '?' && other[3] == '\\');
    assert forall|i: int| 4 <= i < other.len() implies !ends_run(
        windows,
        true,
        #[trigger] other[i],
    ) && other[i] == server[i - 4] by {
        assert(server.contains(server[i - 4]));
    }
    lemma_run_ends(windows, true, other, 4, server.len() as int);
    if !(server.len() >= 4 && server[0] == 'U' && server[1] == 'N' && server[2] == 'C' && server[3]
        == '/') && !(server.len() >= 2 && server[1] == ':') {
        if other.len() >= 8 {
            assert(other[4] == server[0] && other[5] == server[1] && other[6] == server[2]
                && other[7] == server[3]);
        }
        if other.len() >= 6 {
            assert(other[5] == server[1]);
        }
        assert(prefix_length(windows, other) == other.len());
        assert(other.take(other.len() as int) =~= other);
        assert(other.skip(other.len() as int) =~= Seq::<char>::empty());
        assert(components(windows, other) =~= seq![other]);
    }
}

} // verus!
