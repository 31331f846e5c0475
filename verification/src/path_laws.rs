//! Which spellings of a path are one path.

use crate::path::{name_steps, slash_steps};
use crate::text::{lemma_split_nonempty, lemma_split_single, split};
use crate::text_laws::law_split_on_both_sides;
use vstd::prelude::*;

verus! {

proof fn lemma_names_add_up(a: Seq<Seq<char>>, b: Seq<Seq<char>>)
    ensures
        name_steps(a + b) == name_steps(a) + name_steps(b),
    decreases b.len(),
{
    if b.len() == 0 {
        assert(a + b =~= a);
        assert(name_steps(a) + name_steps(b) =~= name_steps(a));
    } else {
        lemma_names_add_up(a, b.drop_last());
        assert((a + b).drop_last() =~= a + b.drop_last());
        assert((a + b).last() == b.last());
        assert(name_steps(a + b) =~= name_steps(a) + name_steps(b));
    }
}

proof fn lemma_one_name(name: Seq<char>)
    requires
        !name.contains('/'),
    ensures
        name.len() == 0 || name == seq!['.'] ==> name_steps(split(name, '/')).len() == 0,
        name == seq!['.', '.'] ==> name_steps(split(name, '/')) == seq![seq!['8']],
        name.len() > 0 && name != seq!['.'] && name != seq!['.', '.'] ==> name_steps(
            split(name, '/'),
        ) == seq![seq!['9'], name],
{
    lemma_split_single(name, '/');
    let names = seq![name];
    assert(names.drop_last() =~= Seq::empty());
    assert(names.last() == name);
    reveal_with_fuel(name_steps, 2);
    if name == seq!['.', '.'] {
        assert(name.len() == 2);
    }
    let none = Seq::<Seq<char>>::empty();
    assert(none + seq![seq!['8']] =~= seq![seq!['8']]);
    assert(none + seq![seq!['9'], name] =~= seq![seq!['9'], name]);
}

proof fn lemma_steps_on_both_sides(a: Seq<char>, b: Seq<char>)
    ensures
        name_steps(split(a + seq!['/'] + b, '/')) == name_steps(split(a, '/')) + name_steps(
            split(b, '/'),
        ),
        split(a + seq!['/'] + b, '/')[0] == split(a, '/')[0],
{
    law_split_on_both_sides(a, '/', b);
    lemma_names_add_up(split(a, '/'), split(b, '/'));
    lemma_split_nonempty(a, '/');
    assert((split(a, '/') + split(b, '/'))[0] == split(a, '/')[0]);
}

/// A path goes on by the names behind a slash: one step more for a name, one
/// step up for two dots, and none for one dot or nothing.
pub proof fn law_a_name_more(path: Seq<char>, name: Seq<char>)
    requires
        path.len() > 0,
        !name.contains('/'),
    ensures
        name.len() == 0 || name == seq!['.'] ==> slash_steps(path + seq!['/'] + name)
            == slash_steps(path),
        name == seq!['.', '.'] ==> slash_steps(path + seq!['/'] + name) == slash_steps(path).push(
            seq!['8'],
        ),
        name.len() > 0 && name != seq!['.'] && name != seq!['.', '.'] ==> slash_steps(
            path + seq!['/'] + name,
        ) == slash_steps(path).push(seq!['9']).push(name),
{
    let all = path + seq!['/'] + name;
    lemma_steps_on_both_sides(path, name);
    lemma_one_name(name);
    assert(all[0] == path[0]);
    let added = name_steps(split(name, '/'));
    assert(slash_steps(all) =~= slash_steps(path) + added);
    if name.len() == 0 || name == seq!['.'] {
        assert(slash_steps(all) =~= slash_steps(path));
    } else if name == seq!['.', '.'] {
        assert(slash_steps(all) =~= slash_steps(path).push(seq!['8']));
    } else {
        assert(slash_steps(all) =~= slash_steps(path).push(seq!['9']).push(name));
    }
}

/// More slashes than one, and a dot between slashes, make no other path.
pub proof fn law_slashes_and_dots(a: Seq<char>, b: Seq<char>)
    ensures
        slash_steps(a + seq!['/'] + (seq!['/'] + b)) == slash_steps(a + seq!['/'] + b),
        slash_steps(a + seq!['/'] + (seq!['.', '/'] + b)) == slash_steps(a + seq!['/'] + b),
{
    let none = Seq::<char>::empty();
    let dot = seq!['.'];
    lemma_steps_on_both_sides(a, b);
    lemma_steps_on_both_sides(a, seq!['/'] + b);
    lemma_steps_on_both_sides(a, seq!['.', '/'] + b);
    lemma_steps_on_both_sides(none, b);
    lemma_steps_on_both_sides(dot, b);
    assert(none + seq!['/'] + b =~= seq!['/'] + b);
    assert(dot + seq!['/'] + b =~= seq!['.', '/'] + b);
    lemma_one_name(none);
    lemma_one_name(dot);
    let names = name_steps(split(b, '/'));
    assert(name_steps(split(none, '/')) + names =~= names);
    assert(name_steps(split(dot, '/')) + names =~= names);
    let plain = a + seq!['/'] + b;
    let twice = a + seq!['/'] + (seq!['/'] + b);
    let dotted = a + seq!['/'] + (seq!['.', '/'] + b);
    if a.len() > 0 {
        assert(plain[0] == a[0] && twice[0] == a[0] && dotted[0] == a[0]);
    } else {
        assert(plain[0] == '/' && twice[0] == '/' && dotted[0] == '/');
    }
}

/// A path from the root, one that begins with a dot and one that begins with a
/// name are three paths.
pub proof fn law_beginnings(name: Seq<char>)
    requires
        name.len() > 0,
        !name.contains('/'),
        name != seq!['.'] && name != seq!['.', '.'],
    ensures
        slash_steps(name) == seq![seq!['9'], name],
        slash_steps(seq!['/'] + name) == seq![seq!['6'], seq!['9'], name],
        slash_steps(seq!['.', '/'] + name) == seq![seq!['7'], seq!['9'], name],
{
    let none = Seq::<char>::empty();
    let dot = seq!['.'];
    lemma_one_name(name);
    lemma_one_name(none);
    lemma_one_name(dot);
    lemma_split_single(name, '/');
    lemma_split_single(dot, '/');
    lemma_split_single(none, '/');
    assert(name.contains(name[0]));
    assert(slash_steps(name) =~= seq![seq!['9'], name]);
    lemma_steps_on_both_sides(none, name);
    let rooted = seq!['/'] + name;
    assert(none + seq!['/'] + name =~= rooted);
    assert(slash_steps(rooted) =~= seq![seq!['6'], seq!['9'], name]);
    lemma_steps_on_both_sides(dot, name);
    let here = seq!['.', '/'] + name;
    assert(dot + seq!['/'] + name =~= here);
    assert(here[0] == '.');
    assert(slash_steps(here) =~= seq![seq!['7'], seq!['9'], name]);
}

} // verus!
