//! Paths of files. Two paths are the same where their parts are the same,
//! however they are written, and they are ordered part by part.

use crate::outside::{ends_in_name, fits_file_name, path_parts, path_prefix, settled_path};
use crate::table::TextTable;
use crate::text::{
    chars_of, lemma_split_single, lemma_text_less_irreflexive, lemma_text_less_total, same_text,
    split, text_less,
};
use vstd::prelude::*;

verus! {

/// What a path begins with on some platforms, such as a drive.
#[derive(Debug)]
pub enum PathPrefix {
    Verbatim(String),
    VerbatimShare(String, String),
    VerbatimDisk(u8),
    Device(String),
    Share(String, String),
    Disk(u8),
}

/// A part of a path.
#[derive(Debug)]
pub enum PathPart {
    /// The prefix, which [`PathPrefix`] describes.
    Prefix,
    Root,
    Current,
    Parent,
    Name(String),
}

// ---------------------------------------------------------------------------
// Steps
// ---------------------------------------------------------------------------

impl PathPrefix {
    /// The prefix as steps: a mark of its kind, and what it holds. The marks
    /// ascend in the order of the kinds.
    pub open spec fn steps(self) -> Seq<Seq<char>> {
        match self {
            PathPrefix::Verbatim(a) => seq![seq!['0'], a@],
            PathPrefix::VerbatimShare(a, b) => seq![seq!['1'], a@, b@],
            PathPrefix::VerbatimDisk(disk) => seq![seq!['2'], seq![disk as char]],
            PathPrefix::Device(a) => seq![seq!['3'], a@],
            PathPrefix::Share(a, b) => seq![seq!['4'], a@, b@],
            PathPrefix::Disk(disk) => seq![seq!['5'], seq![disk as char]],
        }
    }
}

impl PathPart {
    /// The part as steps: a mark of its kind, and its name where it has one.
    pub open spec fn steps(self) -> Seq<Seq<char>> {
        match self {
            PathPart::Prefix => Seq::empty(),
            PathPart::Root => seq![seq!['6']],
            PathPart::Current => seq![seq!['7']],
            PathPart::Parent => seq![seq!['8']],
            PathPart::Name(name) => seq![seq!['9'], name@],
        }
    }
}

/// The steps that a path begins with.
spec fn prefix_start(prefix: Option<PathPrefix>) -> Seq<Seq<char>> {
    match prefix {
        Some(prefix) => prefix.steps(),
        None => Seq::empty(),
    }
}

/// The steps of a list of parts.
pub open spec fn steps_of(parts: Seq<PathPart>) -> Seq<Seq<char>>
    decreases parts.len(),
{
    if parts.len() == 0 {
        Seq::empty()
    } else {
        steps_of(parts.drop_last()) + parts.last().steps()
    }
}

/// The steps of the texts between slashes: empty texts and dots are no parts,
/// and two dots stand for the folder above.
pub open spec fn name_steps(names: Seq<Seq<char>>) -> Seq<Seq<char>>
    decreases names.len(),
{
    if names.len() == 0 {
        Seq::empty()
    } else {
        let name = names.last();
        name_steps(names.drop_last()) + if name.len() == 0 || name == seq!['.'] {
            Seq::empty()
        } else if name == seq!['.', '.'] {
            PathPart::Parent.steps()
        } else {
            seq![seq!['9'], name]
        }
    }
}

/// The steps of a path with slashes: a slash at its beginning is the root, and
/// a dot there the current folder.
pub open spec fn slash_steps(path: Seq<char>) -> Seq<Seq<char>> {
    let names = split(path, '/');
    (if path.len() > 0 && path[0] == '/' {
        PathPart::Root.steps()
    } else if names[0] == seq!['.'] {
        PathPart::Current.steps()
    } else {
        Seq::empty()
    }) + name_steps(names)
}

/// Whether steps can be those of a path: the ones between its slashes where
/// every platform agrees on them, and where it ends in a name, that name last.
pub open spec fn can_be_steps(path: Seq<char>, steps: Seq<Seq<char>>) -> bool {
    &&& settled_path(path) ==> steps == slash_steps(path)
    &&& ends_in_name(path) ==> steps.len() >= 2 && steps[steps.len() - 2] == seq!['9']
        && fits_file_name(path, Some(steps.last()))
}

/// The order of paths: that of the first steps that differ, and a path comes
/// before those that it begins.
pub open spec fn steps_less(a: Seq<Seq<char>>, b: Seq<Seq<char>>) -> bool
    decreases a.len(),
{
    if b.len() == 0 {
        false
    } else if a.len() == 0 {
        true
    } else if a[0] == b[0] {
        steps_less(a.skip(1), b.skip(1))
    } else {
        text_less(a[0], b[0])
    }
}

impl PathPart {
    /// The place of the part's kind in the order of the kinds.
    pub open spec fn rank(self) -> int {
        match self {
            PathPart::Prefix => 0,
            PathPart::Root => 1,
            PathPart::Current => 2,
            PathPart::Parent => 3,
            PathPart::Name(_) => 4,
        }
    }

    /// The name of the part, or an empty text.
    pub open spec fn name(self) -> Seq<char> {
        match self {
            PathPart::Name(name) => name@,
            _ => Seq::empty(),
        }
    }

    /// Whether two parts are the same.
    pub open spec fn same_part(self, other: PathPart) -> bool {
        self.rank() == other.rank() && self.name() == other.name()
    }
}

/// The order of lists of parts: at the first parts that differ by their kinds,
/// and for two names by their characters. A list comes before those that it
/// begins.
pub open spec fn parts_less(a: Seq<PathPart>, b: Seq<PathPart>) -> bool
    decreases a.len(),
{
    if b.len() == 0 {
        false
    } else if a.len() == 0 {
        true
    } else if a[0].same_part(b[0]) {
        parts_less(a.skip(1), b.skip(1))
    } else if a[0].rank() == b[0].rank() {
        text_less(a[0].name(), b[0].name())
    } else {
        a[0].rank() < b[0].rank()
    }
}

/// Whether two lists hold the same parts.
pub open spec fn same_parts(a: Seq<PathPart>, b: Seq<PathPart>) -> bool {
    a.len() == b.len() && forall|i: int| 0 <= i < a.len() ==> (#[trigger] a[i]).same_part(b[i])
}

/// Whether no part of a list is a prefix.
pub open spec fn no_prefix(parts: Seq<PathPart>) -> bool {
    forall|i: int| 0 <= i < parts.len() ==> !(#[trigger] parts[i] is Prefix)
}

proof fn lemma_first_steps(parts: Seq<PathPart>)
    requires
        parts.len() > 0,
    ensures
        steps_of(parts) == parts[0].steps() + steps_of(parts.skip(1)),
    decreases parts.len(),
{
    let init = parts.drop_last();
    if init.len() == 0 {
        assert(parts.skip(1) =~= Seq::empty());
        assert(init =~= Seq::empty());
        assert(steps_of(parts) =~= parts[0].steps() + steps_of(parts.skip(1)));
    } else {
        lemma_first_steps(init);
        assert(parts.skip(1).drop_last() =~= init.skip(1));
        assert(parts.skip(1).last() == parts.last());
        assert(steps_of(parts) =~= parts[0].steps() + steps_of(parts.skip(1)));
    }
}

/// What the first step does not decide, the later ones do.
proof fn lemma_steps_of_two(a: Seq<Seq<char>>, b: Seq<Seq<char>>, x: PathPart, y: PathPart)
    requires
        !(x is Prefix),
        !(y is Prefix),
    ensures
        steps_less(x.steps() + a, y.steps() + b) == (if x.same_part(y) {
            steps_less(a, b)
        } else if x.rank() == y.rank() {
            text_less(x.name(), y.name())
        } else {
            x.rank() < y.rank()
        }),
        (x.steps() + a == y.steps() + b) == (x.same_part(y) && a == b),
{
    reveal_with_fuel(steps_less, 3);
    let left = x.steps() + a;
    let right = y.steps() + b;
    assert(left[0] == x.steps()[0]);
    assert(right[0] == y.steps()[0]);
    assert(text_less(left[0], right[0]) == (left[0][0] < right[0][0])) by {
        reveal_with_fuel(text_less, 2);
    }
    assert(left[0][0] == x.steps()[0][0] && right[0][0] == y.steps()[0][0]);
    if x.rank() == y.rank() {
        assert(left[0] =~= right[0]);
        if x is Name {
            assert(left.skip(1)[0] == x.name());
            assert(right.skip(1)[0] == y.name());
            assert(left.skip(1).skip(1) =~= a);
            assert(right.skip(1).skip(1) =~= b);
        } else {
            assert(x.name() =~= y.name());
            assert(left.skip(1) =~= a);
            assert(right.skip(1) =~= b);
        }
    } else {
        assert(left[0][0] != right[0][0]);
    }
    if x.same_part(y) && a == b {
        assert(x.steps() =~= y.steps());
    }
}

/// Behind the prefix, steps compare as the parts that they stand for.
pub proof fn law_steps_compare_as_parts(a: Seq<PathPart>, b: Seq<PathPart>)
    requires
        no_prefix(a),
        no_prefix(b),
    ensures
        steps_less(steps_of(a), steps_of(b)) == parts_less(a, b),
        (steps_of(a) == steps_of(b)) == same_parts(a, b),
    decreases a.len(),
{
    if a.len() > 0 {
        lemma_first_steps(a);
        assert(a[0].steps().len() > 0);
    }
    if b.len() > 0 {
        lemma_first_steps(b);
        assert(b[0].steps().len() > 0);
    }
    if a.len() > 0 && b.len() > 0 {
        assert(!(a[0] is Prefix) && !(b[0] is Prefix));
        lemma_steps_of_two(steps_of(a.skip(1)), steps_of(b.skip(1)), a[0], b[0]);
        law_steps_compare_as_parts(a.skip(1), b.skip(1));
        if same_parts(a, b) {
            assert forall|i: int| 0 <= i < a.skip(1).len() implies (#[trigger] a.skip(1)[i])
                .same_part(b.skip(1)[i]) by {
                assert(a[i + 1].same_part(b[i + 1]));
            }
        }
        if a[0].same_part(b[0]) && same_parts(a.skip(1), b.skip(1)) {
            assert forall|i: int| 0 <= i < a.len() implies (#[trigger] a[i]).same_part(b[i]) by {
                if i > 0 {
                    assert(a.skip(1)[i - 1].same_part(b.skip(1)[i - 1]));
                }
            }
        }
    }
}

// ---------------------------------------------------------------------------
// Keys
// ---------------------------------------------------------------------------

/// A character of a step in a key. The two smallest characters get a mark, so
/// that the smallest one is left to end a step.
pub open spec fn key_char(c: char) -> Seq<char> {
    if c <= '\u{1}' {
        seq!['\u{1}', c]
    } else {
        seq![c]
    }
}

/// A step in a key, with its end.
pub open spec fn key_step(step: Seq<char>) -> Seq<char>
    decreases step.len(),
{
    if step.len() == 0 {
        seq!['\0']
    } else {
        key_char(step[0]) + key_step(step.skip(1))
    }
}

/// The steps of a path as one text, which compares as the steps do.
pub open spec fn key_text(steps: Seq<Seq<char>>) -> Seq<char>
    decreases steps.len(),
{
    if steps.len() == 0 {
        Seq::empty()
    } else {
        key_step(steps[0]) + key_text(steps.skip(1))
    }
}

proof fn lemma_key_push(steps: Seq<Seq<char>>, step: Seq<char>)
    ensures
        key_text(steps.push(step)) == key_text(steps) + key_step(step),
    decreases steps.len(),
{
    let all = steps.push(step);
    if steps.len() == 0 {
        assert(all.skip(1) =~= Seq::empty());
        reveal_with_fuel(key_text, 2);
        assert(key_text(all) =~= key_text(steps) + key_step(step));
    } else {
        lemma_key_push(steps.skip(1), step);
        assert(all.skip(1) =~= steps.skip(1).push(step));
        assert(key_text(all) =~= key_text(steps) + key_step(step));
    }
}

/// What two texts have in common at their beginning does not matter to their
/// order.
proof fn lemma_common_start(start: Seq<char>, a: Seq<char>, b: Seq<char>)
    ensures
        text_less(start + a, start + b) == text_less(a, b),
    decreases start.len(),
{
    if start.len() == 0 {
        assert(start + a =~= a);
        assert(start + b =~= b);
    } else {
        lemma_common_start(start.skip(1), a, b);
        assert((start + a).skip(1) =~= start.skip(1) + a);
        assert((start + b).skip(1) =~= start.skip(1) + b);
    }
}

/// Keys are ordered by their first steps, and by what follows where these are
/// the same.
proof fn lemma_key_step_order(a: Seq<char>, b: Seq<char>, x: Seq<char>, y: Seq<char>)
    ensures
        text_less(key_step(a) + x, key_step(b) + y) == (if a == b {
            text_less(x, y)
        } else {
            text_less(a, b)
        }),
    decreases a.len(),
{
    reveal_with_fuel(text_less, 2);
    let left = key_step(a) + x;
    let right = key_step(b) + y;
    if a.len() == 0 && b.len() == 0 {
        assert(a =~= b);
        lemma_common_start(key_step(a), x, y);
    } else if a.len() > 0 && b.len() > 0 && a[0] == b[0] {
        let start = key_char(a[0]);
        let later_a = key_step(a.skip(1)) + x;
        let later_b = key_step(b.skip(1)) + y;
        assert(left =~= start + later_a);
        assert(right =~= start + later_b);
        lemma_common_start(start, later_a, later_b);
        lemma_key_step_order(a.skip(1), b.skip(1), x, y);
        assert(a == seq![a[0]] + a.skip(1));
        assert(b == seq![b[0]] + b.skip(1));
        assert((a == b) == (a.skip(1) == b.skip(1)));
    } else {
        assert(left[0] == (if a.len() == 0 {
            '\0'
        } else {
            key_char(a[0])[0]
        }));
        assert(right[0] == (if b.len() == 0 {
            '\0'
        } else {
            key_char(b[0])[0]
        }));
        if a.len() > 0 && b.len() > 0 && left[0] == right[0] {
            assert(left.skip(1)[0] == a[0]);
            assert(right.skip(1)[0] == b[0]);
        }
    }
}

/// Keys compare as the steps that they hold, so that paths are ordered part by
/// part.
pub proof fn law_keys_compare_by_parts(a: Seq<Seq<char>>, b: Seq<Seq<char>>)
    ensures
        text_less(key_text(a), key_text(b)) == steps_less(a, b),
    decreases a.len(),
{
    if a.len() == 0 || b.len() == 0 {
        if a.len() > 0 {
            assert(key_text(b).len() == 0);
        }
        if b.len() > 0 {
            lemma_key_step_not_empty(b[0]);
        }
    } else {
        lemma_key_step_order(a[0], b[0], key_text(a.skip(1)), key_text(b.skip(1)));
        law_keys_compare_by_parts(a.skip(1), b.skip(1));
    }
}

proof fn lemma_key_step_not_empty(step: Seq<char>)
    ensures
        key_step(step).len() > 0,
{
}

proof fn lemma_steps_less_total(a: Seq<Seq<char>>, b: Seq<Seq<char>>)
    requires
        a != b,
    ensures
        steps_less(a, b) || steps_less(b, a),
    decreases a.len(),
{
    if a.len() > 0 && b.len() > 0 {
        if a[0] == b[0] {
            assert(a == seq![a[0]] + a.skip(1));
            assert(b == seq![b[0]] + b.skip(1));
            lemma_steps_less_total(a.skip(1), b.skip(1));
        } else {
            lemma_text_less_total(a[0], b[0]);
        }
    } else if a.len() == 0 && b.len() == 0 {
        assert(a =~= b);
    }
}

/// Paths have the same key where they have the same steps, and only there.
pub proof fn law_keys_tell_paths_apart(a: Seq<Seq<char>>, b: Seq<Seq<char>>)
    ensures
        (key_text(a) == key_text(b)) == (a == b),
{
    if a != b {
        lemma_steps_less_total(a, b);
        law_keys_compare_by_parts(a, b);
        law_keys_compare_by_parts(b, a);
        lemma_text_less_irreflexive(key_text(a));
    }
}

fn push_step(key: &mut String, step: &str)
    ensures
        final(key)@ == old(key)@ + key_step(step@),
{
    let chars = chars_of(step);
    let ghost start = key@;
    let mut i: usize = 0;
    assert(chars@.skip(0) == chars@);
    while i < chars.len()
        invariant
            i <= chars@.len(),
            key@ + key_step(chars@.skip(i as int)) == start + key_step(chars@),
        decreases chars@.len() - i,
    {
        let c = chars[i];
        let ghost before = key@;
        let ghost rest = chars@.skip(i as int);
        assert(rest[0] == c);
        assert(rest.skip(1) == chars@.skip(i + 1));
        if c <= '\u{1}' {
            key.push('\u{1}');
        }
        key.push(c);
        assert(key@ =~= before + key_char(c));
        assert(before + (key_char(c) + key_step(rest.skip(1))) =~= key@ + key_step(rest.skip(1)));
        i = i + 1;
    }
    key.push('\0');
    assert(key@ =~= start + key_step(chars@));
}

/// The character of a drive as a text.
fn disk_text(disk: u8) -> (res: String)
    ensures
        res@ == seq![disk as char],
{
    let mut res = String::new();
    res.push(disk as char);
    assert(res@ =~= seq![disk as char]);
    res
}

fn push_mark(key: &mut String, mark: char, Ghost(steps): Ghost<Seq<Seq<char>>>)
    requires
        old(key)@ == key_text(steps),
    ensures
        final(key)@ == key_text(steps.push(seq![mark])),
{
    let mut text = String::new();
    text.push(mark);
    assert(text@ =~= seq![mark]);
    push_step(key, text.as_str());
    proof {
        lemma_key_push(steps, seq![mark]);
    }
}

fn push_text(key: &mut String, text: &str, Ghost(steps): Ghost<Seq<Seq<char>>>)
    requires
        old(key)@ == key_text(steps),
    ensures
        final(key)@ == key_text(steps.push(text@)),
{
    push_step(key, text);
    proof {
        lemma_key_push(steps, text@);
    }
}

fn prefix_key(prefix: PathPrefix) -> (res: String)
    ensures
        res@ == key_text(prefix.steps()),
{
    let mut key = String::new();
    let ghost none = Seq::<Seq<char>>::empty();
    assert(key@ =~= key_text(none));
    let (mark, first, second) = match prefix {
        PathPrefix::Verbatim(a) => ('0', a, None),
        PathPrefix::VerbatimShare(a, b) => ('1', a, Some(b)),
        PathPrefix::VerbatimDisk(disk) => ('2', disk_text(disk), None),
        PathPrefix::Device(a) => ('3', a, None),
        PathPrefix::Share(a, b) => ('4', a, Some(b)),
        PathPrefix::Disk(disk) => ('5', disk_text(disk), None),
    };
    push_mark(&mut key, mark, Ghost(none));
    let ghost one = none.push(seq![mark]);
    push_text(&mut key, first.as_str(), Ghost(one));
    let ghost two = one.push(first@);
    match second {
        Some(second) => {
            push_text(&mut key, second.as_str(), Ghost(two));
            assert(prefix.steps() =~= two.push(second@));
        },
        None => {
            assert(prefix.steps() =~= two);
        },
    }
    key
}

// ---------------------------------------------------------------------------
// File paths
// ---------------------------------------------------------------------------

/// The path of a file or a folder, with its parts as the platform sees them.
#[derive(Debug)]
pub struct FilePath {
    text: String,
    key: String,
}

/// What a [`FilePath`] holds: the path as it is written, and a key that is the
/// same for all ways to write it.
#[verifier::ext_equal]
pub struct PathView {
    pub text: Seq<char>,
    pub key: Seq<char>,
}

impl View for FilePath {
    type V = PathView;

    closed spec fn view(&self) -> PathView {
        PathView { text: self.text@, key: self.key@ }
    }
}

impl PathView {
    /// Whether the key is that of the text, for some way to take the text
    /// apart that a platform can have.
    pub open spec fn fits(self) -> bool {
        exists|steps: Seq<Seq<char>>| #[trigger]
            can_be_steps(self.text, steps) && self.key == key_text(steps)
    }

    /// The empty path, which has no parts.
    pub open spec fn nowhere() -> PathView {
        PathView { text: Seq::empty(), key: Seq::empty() }
    }
}

/// A path with slashes has the same key on every platform.
pub proof fn law_settled_paths(path: PathView)
    requires
        path.fits(),
        settled_path(path.text),
    ensures
        path.key == key_text(slash_steps(path.text)),
{
}

impl Clone for FilePath {
    fn clone(&self) -> (res: Self)
        ensures
            res == *self,
    {
        FilePath { text: self.text.clone(), key: self.key.clone() }
    }
}

impl Default for FilePath {
    fn default() -> (res: Self)
        ensures
            res@ == PathView::nowhere(),
            res@.fits(),
    {
        let res = FilePath { text: String::new(), key: String::new() };
        proof {
            let none = Seq::<Seq<char>>::empty();
            lemma_split_single(Seq::empty(), '/');
            assert(split(Seq::empty(), '/').drop_last() =~= none);
            reveal_with_fuel(name_steps, 2);
            assert(slash_steps(Seq::empty()) =~= none);
            assert(res@.text =~= Seq::empty());
            assert(can_be_steps(res@.text, none));
            assert(res@.key =~= key_text(none));
        }
        res
    }
}

impl PartialEq for FilePath {
    fn eq(&self, other: &Self) -> (res: bool) {
        same_text(self.key.as_str(), other.key.as_str())
    }
}

impl vstd::std_specs::cmp::PartialEqSpecImpl for FilePath {
    open spec fn obeys_eq_spec() -> bool {
        true
    }

    open spec fn eq_spec(&self, other: &Self) -> bool {
        self@.key == other@.key
    }
}

impl FilePath {
    /// The path that a text writes.
    pub fn new(text: &str) -> (res: Self)
        ensures
            res@.text == text@,
            res@.fits(),
    {
        let parts = path_parts(text);
        let prefix = path_prefix(text);
        let ghost start = prefix_start(prefix);
        let mut key = match prefix {
            Some(prefix) => prefix_key(prefix),
            None => String::new(),
        };
        assert(key@ =~= key_text(start));
        let mut i: usize = 0;
        assert(start + steps_of(parts@.take(0)) =~= start);
        while i < parts.len()
            invariant
                i <= parts@.len(),
                key@ == key_text(start + steps_of(parts@.take(i as int))),
            decreases parts@.len() - i,
        {
            let ghost steps = start + steps_of(parts@.take(i as int));
            assert(parts@.take(i + 1).drop_last() == parts@.take(i as int));
            assert(parts@.take(i + 1).last() == parts@[i as int]);
            match &parts[i] {
                PathPart::Prefix => {},
                PathPart::Root => push_mark(&mut key, '6', Ghost(steps)),
                PathPart::Current => push_mark(&mut key, '7', Ghost(steps)),
                PathPart::Parent => push_mark(&mut key, '8', Ghost(steps)),
                PathPart::Name(name) => {
                    push_mark(&mut key, '9', Ghost(steps));
                    push_text(&mut key, name.as_str(), Ghost(steps.push(seq!['9'])));
                },
            }
            proof {
                let part = parts@[i as int].steps();
                let now = start + steps_of(parts@.take(i + 1));
                assert(now =~= steps + part);
                match parts@[i as int] {
                    PathPart::Prefix => assert(now =~= steps),
                    PathPart::Name(name) => assert(now =~= steps.push(seq!['9']).push(name@)),
                    PathPart::Root => assert(now =~= steps.push(seq!['6'])),
                    PathPart::Current => assert(now =~= steps.push(seq!['7'])),
                    PathPart::Parent => assert(now =~= steps.push(seq!['8'])),
                }
            }
            i = i + 1;
        }
        let res = FilePath { text: text.to_owned(), key };
        proof {
            let steps = start + steps_of(parts@);
            assert(parts@.take(parts@.len() as int) == parts@);
            assert(res@.key == key_text(steps));
            if settled_path(text@) {
                assert(steps =~= slash_steps(text@));
            }
            if ends_in_name(text@) {
                let name = parts@.last()->Name_0@;
                assert(parts@.last().steps() == seq![seq!['9'], name]);
                assert(steps.last() == name);
                assert(steps[steps.len() - 2] == seq!['9']);
            }
            assert(can_be_steps(res@.text, steps));
        }
        res
    }

    /// The path as it is written.
    pub fn text(&self) -> (res: &str)
        ensures
            res@ == self@.text,
    {
        self.text.as_str()
    }

    /// The key of the path.
    pub(crate) fn key(&self) -> (res: &String)
        ensures
            res@ == self@.key,
    {
        &self.key
    }

    /// Whether two paths are the same, however they are written.
    pub fn same_path(&self, other: &FilePath) -> (res: bool)
        ensures
            res == (self@.key == other@.key),
    {
        same_text(self.key.as_str(), other.key.as_str())
    }
}

// ---------------------------------------------------------------------------
// Tables
// ---------------------------------------------------------------------------

/// A table that holds one value for each of its paths. A path stays as it was
/// written when it came first.
#[derive(Debug, Clone)]
pub struct PathTable<V> {
    entries: TextTable<(FilePath, V)>,
}

impl<V> View for PathTable<V> {
    type V = Map<Seq<char>, (Seq<char>, V)>;

    /// The text of each path and its value, by the key of the path.
    closed spec fn view(&self) -> Map<Seq<char>, (Seq<char>, V)> {
        self.entries@.map_values(|entry: (FilePath, V)| (entry.0@.text, entry.1))
    }
}

impl<V> PathTable<V> {
    /// The keys stand in order, and each entry under the key of its path.
    pub closed spec fn wf(self) -> bool {
        &&& self.entries.wf()
        &&& forall|key: Seq<char>|
            self.entries@.dom().contains(key) ==> (#[trigger] self.entries@[key]).0@.key == key
    }

    /// The values by the keys of their paths.
    pub open spec fn values(self) -> Map<Seq<char>, V> {
        self@.map_values(|entry: (Seq<char>, V)| entry.1)
    }

    /// How a path is written in the table after it was set: as before where it
    /// is there.
    pub open spec fn spelling(self, path: PathView) -> Seq<char> {
        if self@.dom().contains(path.key) {
            self@[path.key].0
        } else {
            path.text
        }
    }

    pub fn new() -> (res: Self)
        ensures
            res.wf(),
            res@ == Map::<Seq<char>, (Seq<char>, V)>::empty(),
            res.values() == Map::<Seq<char>, V>::empty(),
    {
        let res = PathTable { entries: TextTable::new() };
        assert(res@ =~= Map::<Seq<char>, (Seq<char>, V)>::empty());
        assert(res.values() =~= Map::<Seq<char>, V>::empty());
        res
    }

    /// Sets the value of a path.
    pub fn insert(&mut self, path: FilePath, value: V)
        requires
            old(self).wf(),
        ensures
            final(self).wf(),
            final(self)@ == old(self)@.insert(path@.key, (old(self).spelling(path@), value)),
            final(self).values() == old(self).values().insert(path@.key, value),
    {
        let ghost before = *self;
        let ghost spelling = self.spelling(path@);
        let key = path.key().clone();
        let kept = match self.entries.get(key.as_str()) {
            Some(entry) => entry.0.clone(),
            None => path,
        };
        self.entries.insert(key, (kept, value));
        assert(self@ =~= before@.insert(path@.key, (spelling, value)));
        assert(self.values() =~= before.values().insert(path@.key, value));
    }

    /// The value of a path.
    pub fn get(&self, path: &FilePath) -> (res: Option<&V>)
        requires
            self.wf(),
        ensures
            match res {
                Some(value) => self@.dom().contains(path@.key) && *value == self@[path@.key].1,
                None => !self@.dom().contains(path@.key),
            },
    {
        match self.entries.get(path.key().as_str()) {
            Some(entry) => Some(&entry.1),
            None => None,
        }
    }

    /// The keys of the paths, in ascending order.
    pub closed spec fn keys(self) -> Seq<Seq<char>> {
        self.entries.keys()
    }

    pub fn len(&self) -> (res: usize)
        ensures
            res == self.keys().len(),
    {
        self.entries.len()
    }

    /// The entry at an index, in the order of the paths.
    pub fn at(&self, i: usize) -> (res: (&FilePath, &V))
        requires
            self.wf(),
            i < self.keys().len(),
        ensures
            res.0@.key == self.keys()[i as int],
            self@.dom().contains(res.0@.key),
            self@[res.0@.key] == (res.0@.text, *res.1),
    {
        let (key, entry) = self.entries.at(i);
        (&entry.0, &entry.1)
    }

    /// The keys are those of the entries, each once and in ascending order.
    pub proof fn law_path_keys_ascend(self)
        requires
            self.wf(),
        ensures
            forall|key: Seq<char>| self@.dom().contains(key) == self.keys().contains(key),
            forall|i: int, j: int|
                0 <= i < j < self.keys().len() ==> text_less(
                    #[trigger] self.keys()[i],
                    #[trigger] self.keys()[j],
                ),
    {
        self.entries.law_keys_ascend();
    }
}

} // verus!
