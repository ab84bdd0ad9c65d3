//! The names and the texts of new notes.

use vstd::prelude::*;

use crate::paths::{contains_path, file_name, join, stem};
use crate::text::{concat3, copy_str, decimal_usize};

verus! {

broadcast use vstd::string::group_string_axioms;

use crate::paths::{
    file_name_of, joined_path, law_extension_stands_behind_the_last_point,
    law_joined_path_lies_in_directory, law_joined_path_parts_again, lists_path, names_of, same_path,
    stem_of,
};
use crate::text::{decimal, is_digit, lemma_decimal_round_trip, texts};

/// The names that a new note can have, counted from one.
pub open spec fn new_note_name(number: int) -> Seq<char> {
    if number == 1 {
        "untitled.md"@
    } else {
        "untitled-"@ + decimal(number as nat) + ".md"@
    }
}

/// The title of a new note: the name of its file without the extension.
pub open spec fn note_title(path: Seq<char>) -> Seq<char> {
    match file_name_of(path) {
        Some(name) => stem_of(name),
        None => "Untitled"@,
    }
}

/// The text of a new note.
pub open spec fn titled_text(title: Seq<char>) -> Seq<char> {
    "# "@ + title + "\n\n"@
}

/// The path of a new note in a directory.
pub open spec fn new_note_path(directory: Seq<char>, number: int) -> Seq<char> {
    joined_path(directory, new_note_name(number))
}

proof fn lemma_names_differ(m: int, n: int)
    requires
        1 <= m < n,
    ensures
        new_note_name(m) != new_note_name(n),
{
    reveal_strlit("untitled.md");
    reveal_strlit("untitled-");
    reveal_strlit(".md");
    let a = new_note_name(m);
    let b = new_note_name(n);
    if m == 1 {
        assert(a[8] == '.');
        assert(b[8] == '-');
    } else if a == b {
        let da = decimal(m as nat);
        let db = decimal(n as nat);
        lemma_decimal_round_trip(m as nat);
        lemma_decimal_round_trip(n as nat);
        assert(a.len() == 9 + da.len() + 3);
        assert(b.len() == 9 + db.len() + 3);
        assert(da =~= a.subrange(9, 9 + da.len() as int));
        assert(db =~= b.subrange(9, 9 + db.len() as int));
    }
}

proof fn lemma_is_name(number: int)
    requires
        1 <= number,
    ensures
        new_note_name(number).len() > 1,
        forall|i: int| 0 <= i < new_note_name(number).len() ==> new_note_name(number)[i] != '/',
{
    reveal_strlit("untitled.md");
    reveal_strlit("untitled-");
    reveal_strlit(".md");
    lemma_decimal_round_trip(number as nat);
    let digits = decimal(number as nat);
    let name = new_note_name(number);
    assert forall|i: int| 0 <= i < name.len() implies name[i] != '/' by {
        if number != 1 && 9 <= i < 9 + digits.len() {
            assert(name[i] == digits[i - 9]);
            assert(is_digit(digits[i - 9]));
        }
    }
}

proof fn lemma_paths_differ(directory: Seq<char>, m: int, n: int)
    requires
        1 <= m < n,
    ensures
        !same_path(new_note_path(directory, m), new_note_path(directory, n)),
{
    reveal_strlit(".");
    lemma_names_differ(m, n);
    let a = new_note_name(m);
    let b = new_note_name(n);
    lemma_is_name(m);
    lemma_is_name(n);
    law_joined_path_lies_in_directory(directory, a);
    law_joined_path_lies_in_directory(directory, b);
    assert(names_of(directory).push(a).last() == a);
    assert(names_of(directory).push(b).last() == b);
}

/// Of one path more than there are taken ones, one is free.
proof fn lemma_one_is_free(directory: Seq<char>, taken: Seq<Seq<char>>)
    ensures
        exists|n: int|
            1 <= n <= taken.len() + 1 && !lists_path(
                taken,
                #[trigger] new_note_path(directory, n),
            ),
{
    if forall|n: int|
        1 <= n <= taken.len() + 1 ==> lists_path(taken, #[trigger] new_note_path(directory, n)) {
        let tried = Seq::new(taken.len() + 1, |i: int| names_of(new_note_path(directory, i + 1)));
        let held = Seq::new(taken.len(), |i: int| names_of(taken[i]));
        assert(tried.no_duplicates()) by {
            assert forall|i: int, j: int| 0 <= i < tried.len() && 0 <= j < tried.len() && i
                != j implies tried[i] != tried[j] by {
                if i < j {
                    lemma_paths_differ(directory, i + 1, j + 1);
                } else {
                    lemma_paths_differ(directory, j + 1, i + 1);
                }
            }
        }
        tried.unique_seq_to_set();
        held.lemma_cardinality_of_set();
        assert(tried.to_set().subset_of(held.to_set())) by {
            assert forall|names: Seq<Seq<char>>| tried.to_set().contains(
                names,
            ) implies held.to_set().contains(names) by {
                let i = choose|i: int| 0 <= i < tried.len() && tried[i] == names;
                let path = new_note_path(directory, i + 1);
                assert(lists_path(taken, path));
                let k = choose|k: int| 0 <= k < taken.len() && same_path(#[trigger] taken[k], path);
                assert(held[k] == names);
            }
        }
        vstd::seq_lib::seq_to_set_is_finite(held);
        vstd::set_lib::lemma_len_subset(tried.to_set(), held.to_set());
    }
}

/// The first path for a new note in a directory that is not taken.
#[must_use]
pub fn next_note_path_in(directory: &str, taken: &Vec<String>) -> (r: String)
    requires
        taken@.len() < usize::MAX,
    ensures
        !lists_path(texts(taken@), r@),
        exists|n: int|
            {
                &&& 1 <= n <= taken@.len() + 1
                &&& r@ == #[trigger] new_note_path(directory@, n)
                &&& forall|k: int|
                    1 <= k < n ==> lists_path(
                        texts(taken@),
                        #[trigger] new_note_path(directory@, k),
                    )
            },
{
    let mut number: usize = 1;
    let total: usize = taken.len();
    proof {
        lemma_one_is_free(directory@, texts(taken@));
    }
    loop
        invariant
            1 <= number <= total + 1,
            total == taken@.len(),
            total < usize::MAX,
            forall|k: int|
                1 <= k < number ==> lists_path(
                    texts(taken@),
                    #[trigger] new_note_path(directory@, k),
                ),
            exists|n: int|
                1 <= n <= total + 1 && !lists_path(
                    texts(taken@),
                    #[trigger] new_note_path(directory@, n),
                ),
        decreases total + 1 - number,
    {
        let path = if number == 1 {
            join(directory, "untitled.md")
        } else {
            let count = decimal_usize(number);
            let name = concat3("untitled-", count.as_str(), ".md");
            join(directory, name.as_str())
        };
        assert(path@ == new_note_path(directory@, number as int));
        if !contains_path(taken, path.as_str()) {
            return path;
        }
        if number > total {
            assert(number == total + 1);
            assert(false);
        }
        number += 1;
    }
}

/// The text of a new note.
#[must_use]
pub fn titled(title: &str) -> (r: String)
    ensures
        r@ == titled_text(title@),
{
    concat3("# ", title, "\n\n")
}

/// The text of a new note at a path.
#[must_use]
pub fn new_note_text(path: &str) -> (r: String)
    ensures
        r@ == titled_text(note_title(path@)),
{
    let title = match file_name(path) {
        Some(name) => stem(name.as_str()),
        None => copy_str("Untitled"),
    };
    titled(title.as_str())
}

/// No two numbers give a new note in a directory the same path.
pub proof fn law_new_notes_have_paths_of_their_own(directory: Seq<char>, m: int, n: int)
    requires
        1 <= m,
        1 <= n,
        m != n,
    ensures
        !same_path(new_note_path(directory, m), new_note_path(directory, n)),
{
    if m < n {
        lemma_paths_differ(directory, m, n);
    } else {
        lemma_paths_differ(directory, n, m);
    }
}

/// A new note lies in its directory under its own name, which starts as untitled and ends as a
/// note's does.
pub proof fn law_new_note_is_untitled(directory: Seq<char>, number: int)
    requires
        1 <= number,
    ensures
        "untitled"@.is_prefix_of(new_note_name(number)),
        new_note_name(number).skip(new_note_name(number).len() - 3) == ".md"@,
        names_of(new_note_path(directory, number)) == names_of(directory).push(
            new_note_name(number),
        ),
        new_note_name(1) == "untitled.md"@,
{
    reveal_strlit("untitled");
    reveal_strlit("untitled.md");
    reveal_strlit("untitled-");
    reveal_strlit(".md");
    reveal_strlit(".");
    lemma_is_name(number);
    law_joined_path_lies_in_directory(directory, new_note_name(number));
    let name = new_note_name(number);
    assert("untitled"@ =~= name.subrange(0, 8));
    assert(name.skip(name.len() - 3) =~= ".md"@);
}

/// A new note starts with its title as a heading of its own, and an empty line behind it.
pub proof fn law_new_note_starts_with_its_title(title: Seq<char>)
    ensures
        "# "@.is_prefix_of(titled_text(title)),
        titled_text(title).subrange(2, 2 + title.len() as int) == title,
        titled_text(title).skip(2 + title.len() as int) == "\n\n"@,
{
    reveal_strlit("# ");
    reveal_strlit("\n\n");
    assert(titled_text(title).subrange(2, 2 + title.len() as int) =~= title);
    assert(titled_text(title).skip(2 + title.len() as int) =~= "\n\n"@);
}

/// The title of a note is the name of its file up to the last point.
pub proof fn law_title_is_the_name_of_the_file(directory: Seq<char>, stem: Seq<char>, ext: Seq<char>)
    requires
        stem.len() > 0,
        ext.len() > 0,
        forall|i: int| 0 <= i < stem.len() ==> #[trigger] stem[i] != '/',
        forall|i: int| 0 <= i < ext.len() ==> #[trigger] ext[i] != '.' && ext[i] != '/',
    ensures
        note_title(joined_path(directory, stem.push('.') + ext)) == stem,
{
    reveal_strlit(".");
    reveal_strlit("..");
    let name = stem.push('.') + ext;
    assert forall|i: int| 0 <= i < name.len() implies name[i] != '/' by {
        if i < stem.len() {
            assert(name[i] == stem[i]);
        } else if i > stem.len() {
            assert(name[i] == ext[i - stem.len() - 1]);
        }
    }
    assert(name.len() >= 3);
    law_joined_path_parts_again(directory, name);
    law_extension_stands_behind_the_last_point(stem, ext);
}

} // verus!
