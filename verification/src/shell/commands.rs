//! The commands of the palette, and which of them a query finds.

use vstd::prelude::*;

use crate::shell::editor_layout::byte_size;
use crate::text::{chars_of, is_white_space, stands_at};

verus! {

broadcast use vstd::string::group_string_axioms;

use crate::shell::editor_layout::utf8_size;
use crate::text::{ascii_lower, white_space};

/// What `char::to_lowercase` gives.
pub uninterp spec fn lowercase_of(c: char) -> Seq<char>;

/// `char::to_lowercase` gives a character in lower case, which may be several
/// characters. What it is goes by the name `lowercase_of`; an ASCII character has one in
/// lower case, which is spelled out.
#[verifier::external_body]
fn to_lowercase(c: char) -> (r: Vec<char>)
    ensures
        r@ == lowercase_of(c),
        c <= '\u{7f}' ==> r@ == seq![ascii_lower(c)],
{
    c.to_lowercase().collect()
}

/// What a character is in lower case: of ASCII, the small letter of a capital and any other
/// as it is.
pub open spec fn lowered(c: char) -> Seq<char> {
    if c <= '\u{7f}' {
        seq![ascii_lower(c)]
    } else {
        lowercase_of(c)
    }
}

/// What a command does.
#[derive(Clone, Copy, Debug, PartialEq, Eq, Structural)]
pub enum ShellCommand {
    OpenVault,
    NewNote,
    RenameNote,
    DeleteNote,
    RevealNote,
    RefreshVault,
    EditExternal,
    ReloadNote,
    SaveNote,
}

/// A command as the palette shows it.
#[derive(Clone, Copy, Debug, PartialEq, Eq)]
pub struct CommandSpec {
    pub kind: ShellCommand,
    pub label: &'static str,
    pub shortcut: &'static str,
}

/// The commands, in the order of the palette.
pub open spec fn command_order() -> Seq<ShellCommand> {
    seq![
        ShellCommand::OpenVault,
        ShellCommand::NewNote,
        ShellCommand::RenameNote,
        ShellCommand::DeleteNote,
        ShellCommand::RevealNote,
        ShellCommand::RefreshVault,
        ShellCommand::EditExternal,
        ShellCommand::ReloadNote,
        ShellCommand::SaveNote,
    ]
}

/// What a command is called.
pub open spec fn label_of(kind: ShellCommand) -> Seq<char> {
    match kind {
        ShellCommand::OpenVault => "Open vault"@,
        ShellCommand::NewNote => "New note"@,
        ShellCommand::RenameNote => "Rename note"@,
        ShellCommand::DeleteNote => "Delete note"@,
        ShellCommand::RevealNote => "Reveal note"@,
        ShellCommand::RefreshVault => "Refresh vault"@,
        ShellCommand::EditExternal => "Edit external"@,
        ShellCommand::ReloadNote => "Reload note"@,
        ShellCommand::SaveNote => "Save note"@,
    }
}

/// The keys that give a command.
pub open spec fn shortcut_of(kind: ShellCommand) -> Seq<char> {
    match kind {
        ShellCommand::OpenVault => "cmd o"@,
        ShellCommand::NewNote => "cmd n"@,
        ShellCommand::RenameNote => ""@,
        ShellCommand::DeleteNote => "cmd del"@,
        ShellCommand::RevealNote => ""@,
        ShellCommand::RefreshVault => "cmd shift r"@,
        ShellCommand::EditExternal => ""@,
        ShellCommand::ReloadNote => "cmd r"@,
        ShellCommand::SaveNote => "cmd s"@,
    }
}

/// Whether a command is shown under its name and its keys.
pub open spec fn shown_right(spec: CommandSpec) -> bool {
    spec.label@ == label_of(spec.kind) && spec.shortcut@ == shortcut_of(spec.kind)
}

/// A command as the palette shows it.
#[must_use]
pub fn command_spec(kind: ShellCommand) -> (r: CommandSpec)
    ensures
        r.kind == kind,
        shown_right(r),
{
    let (label, shortcut) = match kind {
        ShellCommand::OpenVault => ("Open vault", "cmd o"),
        ShellCommand::NewNote => ("New note", "cmd n"),
        ShellCommand::RenameNote => ("Rename note", ""),
        ShellCommand::DeleteNote => ("Delete note", "cmd del"),
        ShellCommand::RevealNote => ("Reveal note", ""),
        ShellCommand::RefreshVault => ("Refresh vault", "cmd shift r"),
        ShellCommand::EditExternal => ("Edit external", ""),
        ShellCommand::ReloadNote => ("Reload note", "cmd r"),
        ShellCommand::SaveNote => ("Save note", "cmd s"),
    };
    CommandSpec { kind, label, shortcut }
}

/// The commands that a list shows.
pub open spec fn kinds_of(specs: Seq<CommandSpec>) -> Seq<ShellCommand> {
    Seq::new(specs.len(), |i: int| specs[i].kind)
}

/// The commands, in the order of the palette.
#[must_use]
pub fn commands() -> (r: Vec<CommandSpec>)
    ensures
        kinds_of(r@) == command_order(),
        forall|i: int| 0 <= i < r@.len() ==> shown_right(#[trigger] r@[i]),
{
    let mut all: Vec<CommandSpec> = Vec::new();
    all.push(command_spec(ShellCommand::OpenVault));
    all.push(command_spec(ShellCommand::NewNote));
    all.push(command_spec(ShellCommand::RenameNote));
    all.push(command_spec(ShellCommand::DeleteNote));
    all.push(command_spec(ShellCommand::RevealNote));
    all.push(command_spec(ShellCommand::RefreshVault));
    all.push(command_spec(ShellCommand::EditExternal));
    all.push(command_spec(ShellCommand::ReloadNote));
    all.push(command_spec(ShellCommand::SaveNote));
    assert(kinds_of(all@) =~= command_order());
    all
}

/// A text in lower case, without its white space.
pub open spec fn compact(s: Seq<char>) -> Seq<char>
    decreases s.len(),
{
    if s.len() == 0 {
        Seq::empty()
    } else if white_space(s.last()) {
        compact(s.drop_last())
    } else {
        compact(s.drop_last()) + lowered(s.last())
    }
}

/// Whether a word starts at a place.
pub open spec fn word_starts(s: Seq<char>, i: int) -> bool {
    !white_space(s[i]) && (i == 0 || white_space(s[i - 1]))
}

/// The first letters of the first words, in lower case: those that start before `upto`.
pub open spec fn initials(s: Seq<char>, upto: int) -> Seq<char>
    decreases upto,
{
    if upto <= 0 {
        Seq::empty()
    } else if word_starts(s, upto - 1) {
        initials(s, upto - 1) + lowered(s[upto - 1])
    } else {
        initials(s, upto - 1)
    }
}

/// Whether a text stands in another at a place.
pub open spec fn found_at(s: Seq<char>, part: Seq<char>, at: int) -> bool {
    at + part.len() <= s.len() && s.subrange(at, at + part.len()) == part
}

/// The first place from `from` on at which a text stands in another.
pub open spec fn first_found(s: Seq<char>, part: Seq<char>, from: int) -> Option<int>
    decreases s.len() + 1 - from,
{
    if from > s.len() {
        None
    } else if found_at(s, part, from) {
        Some(from)
    } else {
        first_found(s, part, from + 1)
    }
}

/// The first place from `from` on at which a character stands.
pub open spec fn next_char(s: Seq<char>, c: char, from: int) -> Option<int>
    decreases s.len() - from,
{
    if from >= s.len() {
        None
    } else if s[from] == c {
        Some(from)
    } else {
        next_char(s, c, from + 1)
    }
}

/// The places at which the characters of a text stand in another, one behind the other
/// and each as early as it can; nothing where they do not.
pub open spec fn scattered(s: Seq<char>, part: Seq<char>) -> Option<Seq<int>>
    decreases part.len(),
{
    if part.len() == 0 {
        Some(Seq::empty())
    } else {
        match scattered(s, part.drop_last()) {
            Some(places) => match next_char(
                s,
                part.last(),
                if places.len() == 0 {
                    0
                } else {
                    places.last() + 1
                },
            ) {
                Some(at) => Some(places.push(at)),
                None => None,
            },
            None => None,
        }
    }
}

/// How well a query finds a label, the lower the better; nothing where it does not. A
/// label that starts with it is best, then one whose initials do, then one that holds it,
/// by where, and last one that holds its characters scattered, by where they start and
/// how far they reach.
pub open spec fn rank_of(label: Seq<char>, acronym: Seq<char>, query: Seq<char>) -> Option<
    (int, int),
> {
    if found_at(label, query, 0) {
        Some((0, 0))
    } else if found_at(acronym, query, 0) {
        Some((1, 0))
    } else {
        match first_found(label, query, 0) {
            Some(at) => Some((2, utf8_size(label.take(at)) as int)),
            None => match scattered(label, query) {
                Some(places) => {
                    let start = if places.len() == 0 {
                        0
                    } else {
                        utf8_size(label.take(places[0])) as int
                    };
                    let end = if places.len() == 0 {
                        0
                    } else {
                        utf8_size(label.take(places.last())) as int
                    };
                    Some((3, start * 100 + (end - start)))
                },
                None => None,
            },
        }
    }
}

/// Whether one rank is better than another.
pub open spec fn better(a: (int, int), b: (int, int)) -> bool {
    a.0 < b.0 || (a.0 == b.0 && a.1 < b.1)
}

/// Where a find goes among those before it: behind all that it is not better than.
pub open spec fn rank_place(
    order: Seq<int>,
    ranks: Seq<Option<(int, int)>>,
    rank: (int, int),
) -> int
    decreases order.len(),
{
    if order.len() == 0 || !better(rank, ranks[order.last()]->0) {
        order.len() as int
    } else {
        rank_place(order.drop_last(), ranks, rank)
    }
}

/// The finds among the first `upto`, the best first; those as good as one another stay
/// in order.
pub open spec fn best_first(ranks: Seq<Option<(int, int)>>, upto: int) -> Seq<int>
    decreases upto,
{
    if upto <= 0 {
        Seq::empty()
    } else {
        let before = best_first(ranks, upto - 1);
        match ranks[upto - 1] {
            Some(rank) => before.insert(rank_place(before, ranks, rank), upto - 1),
            None => before,
        }
    }
}

/// The ranks of the commands for a query.
pub open spec fn command_ranks(query: Seq<char>) -> Seq<Option<(int, int)>> {
    Seq::new(
        command_order().len(),
        |i: int|
            {
                let label = label_of(command_order()[i]);
                rank_of(compact(label), initials(label, label.len() as int), query)
            },
    )
}

/// The commands that a query finds, the best first; all where it is blank.
pub open spec fn found_by(query: Seq<char>) -> Seq<ShellCommand> {
    if compact(query).len() == 0 {
        command_order()
    } else {
        let order = best_first(
            command_ranks(compact(query)),
            command_order().len() as int,
        );
        Seq::new(order.len(), |i: int| command_order()[order[i]])
    }
}

/// A text in lower case, without its white space.
fn normalize_query(query: &str) -> (r: Vec<char>)
    ensures
        r@ == compact(query@),
{
    let chars = chars_of(query);
    let mut out: Vec<char> = Vec::new();
    let mut i: usize = 0;
    assert(query@.take(0) =~= Seq::empty());
    while i < chars.len()
        invariant
            chars@ == query@,
            i <= chars.len(),
            out@ == compact(query@.take(i as int)),
        decreases chars.len() - i,
    {
        assert(query@.take(i + 1).drop_last() =~= query@.take(i as int));
        assert(query@.take(i + 1).last() == chars@[i as int]);
        if !is_white_space(chars[i]) {
            let mut lower = to_lowercase(chars[i]);
            out.append(&mut lower);
        }
        i += 1;
    }
    assert(query@.take(i as int) =~= query@);
    out
}

/// The first letters of the words of a label, in lower case.
fn acronym_of(label: &str) -> (r: Vec<char>)
    ensures
        r@ == initials(label@, label@.len() as int),
{
    let chars = chars_of(label);
    let mut out: Vec<char> = Vec::new();
    let mut i: usize = 0;
    while i < chars.len()
        invariant
            chars@ == label@,
            i <= chars.len(),
            out@ == initials(label@, i as int),
        decreases chars.len() - i,
    {
        if !is_white_space(chars[i]) && (i == 0 || is_white_space(chars[i - 1])) {
            let mut lower = to_lowercase(chars[i]);
            out.append(&mut lower);
        }
        i += 1;
    }
    out
}

/// The places of the first and the last character of a text that stands scattered in
/// another.
fn scattered_ends(label: &Vec<char>, query: &Vec<char>) -> (r: Option<(usize, usize)>)
    ensures
        match scattered(label@, query@) {
            Some(places) => r matches Some((first, last)) && (if places.len() == 0 {
                first == 0 && last == 0
            } else {
                first == places[0] && last == places.last() && first <= last < label@.len()
            }),
            None => r is None,
        },
{
    let mut first: usize = 0;
    let mut last: usize = 0;
    let mut next: usize = 0;
    let mut i: usize = 0;
    assert(query@.take(0) =~= Seq::empty());
    while i < query.len()
        invariant
            i <= query.len(),
            next <= label.len(),
            scattered(label@, query@.take(i as int)) is Some,
            ({
                let places = scattered(label@, query@.take(i as int))->0;
                &&& places.len() == i
                &&& i == 0 ==> next == 0 && first == 0 && last == 0
                &&& i > 0 ==> first == places[0] && last == places.last() && next == last + 1
                    && first <= last < label@.len()
            }),
        decreases query.len() - i,
    {
        let ghost places = scattered(label@, query@.take(i as int))->0;
        assert(query@.take(i + 1).drop_last() =~= query@.take(i as int));
        assert(query@.take(i + 1).last() == query@[i as int]);
        let mut at: usize = next;
        while at < label.len() && label[at] != query[i]
            invariant
                i < query.len(),
                next <= at <= label.len(),
                next_char(label@, query@[i as int], at as int) == next_char(
                    label@,
                    query@[i as int],
                    next as int,
                ),
            decreases label.len() - at,
        {
            at += 1;
        }
        if at == label.len() {
            proof {
                lemma_scattered_prefix(label@, query@, i + 1);
            }
            return None;
        }
        if i == 0 {
            first = at;
        }
        last = at;
        next = at + 1;
        i += 1;
    }
    assert(query@.take(i as int) =~= query@);
    Some((first, last))
}

proof fn lemma_scattered_prefix(s: Seq<char>, part: Seq<char>, upto: int)
    requires
        0 <= upto <= part.len(),
        scattered(s, part.take(upto)) is None,
    ensures
        scattered(s, part) is None,
    decreases part.len() - upto,
{
    if upto == part.len() {
        assert(part.take(upto) =~= part);
    } else {
        assert(part.take(upto + 1).drop_last() =~= part.take(upto));
        lemma_scattered_prefix(s, part, upto + 1);
    }
}

/// A rank in whole numbers.
pub open spec fn rank_ints(rank: Option<(u8, u128)>) -> Option<(int, int)> {
    match rank {
        Some((class, score)) => Some((class as int, score as int)),
        None => None,
    }
}

/// How well a query finds a label, given the label and its initials in lower case.
#[must_use]
pub fn command_rank(label: &Vec<char>, acronym: &Vec<char>, query: &Vec<char>) -> (r: Option<
    (u8, u128),
>)
    ensures
        rank_ints(r) == rank_of(label@, acronym@, query@),
{
    if stands_at(label, 0, query) {
        return Some((0, 0));
    }
    if stands_at(acronym, 0, query) {
        return Some((1, 0));
    }
    let mut at: usize = 0;
    while at < label.len()
        invariant
            at <= label.len(),
            !found_at(label@, query@, 0),
            !found_at(acronym@, query@, 0),
            first_found(label@, query@, at as int) == first_found(label@, query@, 0),
        decreases label.len() - at,
    {
        if stands_at(label, at, query) {
            let offset: usize = byte_size(label, at);
            return Some((2, offset as u128));
        }
        at += 1;
    }
    if stands_at(label, at, query) {
        let offset: usize = byte_size(label, at);
        return Some((2, offset as u128));
    }
    assert(first_found(label@, query@, at + 1) is None);
    match scattered_ends(label, query) {
        Some((first, last)) => {
            proof {
                lemma_size_monotonic(label@, first as int, last as int);
            }
            let start: usize = byte_size(label, first);
            let end: usize = byte_size(label, last);
            assert(label@.take(0) =~= Seq::empty());
            Some((3, (start as u128) * 100 + ((end - start) as u128)))
        },
        None => None,
    }
}

/// The order of finds, the best first, given how well each was found.
#[must_use]
pub fn order_matches(ranks: &Vec<Option<(u8, u128)>>) -> (r: Vec<usize>)
    ensures
        r@.len() == best_first(rank_list(ranks@), ranks@.len() as int).len(),
        forall|i: int|
            0 <= i < r@.len() ==> #[trigger] r@[i] == best_first(
                rank_list(ranks@),
                ranks@.len() as int,
            )[i],
        forall|i: int| 0 <= i < r@.len() ==> #[trigger] r@[i] < ranks@.len(),
{
    let ghost list = rank_list(ranks@);
    let mut order: Vec<usize> = Vec::new();
    let mut i: usize = 0;
    assert(places_of(order@) =~= Seq::empty());
    while i < ranks.len()
        invariant
            i <= ranks.len(),
            list == rank_list(ranks@),
            places_of(order@) == best_first(list, i as int),
            forall|k: int|
                0 <= k < order@.len() ==> #[trigger] order@[k] < i && ranks@[order@[k] as int]
                    is Some,
        decreases ranks.len() - i,
    {
        if let Some(rank) = ranks[i] {
            let mut at: usize = order.len();
            let ghost goal = (rank.0 as int, rank.1 as int);
            assert(places_of(order@).take(at as int) =~= places_of(order@));
            while at > 0 && ranks_better(rank, ranks[order[at - 1]])
                invariant
                    at <= order.len(),
                    i < ranks.len(),
                    list == rank_list(ranks@),
                    goal == (rank.0 as int, rank.1 as int),
                    forall|k: int|
                        0 <= k < order@.len() ==> #[trigger] order@[k] < i
                            && ranks@[order@[k] as int] is Some,
                    rank_place(places_of(order@).take(at as int), list, goal) == rank_place(
                        places_of(order@),
                        list,
                        goal,
                    ),
                decreases at,
            {
                assert(places_of(order@).take(at as int).drop_last() =~= places_of(order@).take(
                    at - 1,
                ));
                assert(places_of(order@).take(at as int).last() == order@[at - 1]);
                at -= 1;
            }
            proof {
                if at > 0 {
                    assert(places_of(order@).take(at as int).last() == order@[at - 1]);
                }
            }
            let ghost before = order@;
            order.insert(at, i);
            assert(places_of(order@) =~= places_of(before).insert(at as int, i as int));
        }
        i += 1;
    }
    proof {
        assert forall|k: int| 0 <= k < order@.len() implies #[trigger] order@[k] == best_first(
            list,
            ranks@.len() as int,
        )[k] by {
            assert(places_of(order@)[k] == order@[k]);
        }
    }
    order
}

/// Ranks in whole numbers.
pub open spec fn rank_list(ranks: Seq<Option<(u8, u128)>>) -> Seq<Option<(int, int)>> {
    Seq::new(ranks.len(), |i: int| rank_ints(ranks[i]))
}

spec fn places_of(order: Seq<usize>) -> Seq<int> {
    Seq::new(order.len(), |i: int| order[i] as int)
}

fn ranks_better(rank: (u8, u128), other: Option<(u8, u128)>) -> (r: bool)
    requires
        other is Some,
    ensures
        r == better(
            (rank.0 as int, rank.1 as int),
            rank_ints(other)->0,
        ),
{
    match other {
        Some((class, score)) => rank.0 < class || (rank.0 == class && rank.1 < score),
        None => false,
    }
}

proof fn lemma_size_monotonic(s: Seq<char>, a: int, b: int)
    requires
        0 <= a <= b <= s.len(),
    ensures
        utf8_size(s.take(a)) <= utf8_size(s.take(b)),
    decreases b - a,
{
    if a < b {
        crate::shell::editor_layout::lemma_size_take(s, b - 1);
        lemma_size_monotonic(s, a, b - 1);
    }
}

/// The commands that a query finds, the best first.
#[must_use]
pub fn filtered_commands(query: &str) -> (r: Vec<CommandSpec>)
    ensures
        kinds_of(r@) == found_by(query@),
        forall|i: int| 0 <= i < r@.len() ==> shown_right(#[trigger] r@[i]),
{
    let query = normalize_query(query);
    let all = commands();
    assert(all@.len() == kinds_of(all@).len());
    if query.len() == 0 {
        return all;
    }
    let mut ranks: Vec<Option<(u8, u128)>> = Vec::new();
    let mut i: usize = 0;
    while i < all.len()
        invariant
            i <= all.len(),
            kinds_of(all@) == command_order(),
            all@.len() == command_order().len(),
            forall|k: int| 0 <= k < all@.len() ==> shown_right(#[trigger] all@[k]),
            ranks.len() == i,
            forall|k: int|
                0 <= k < i ==> rank_ints(#[trigger] ranks@[k]) == command_ranks(query@)[k],
        decreases all.len() - i,
    {
        let label = all[i].label;
        assert(command_order()[i as int] == kinds_of(all@)[i as int]);
        let compact_label = normalize_query(label);
        let acronym = acronym_of(label);
        ranks.push(command_rank(&compact_label, &acronym, &query));
        i += 1;
    }
    assert(rank_list(ranks@) =~= command_ranks(query@));
    let order = order_matches(&ranks);
    let mut found: Vec<CommandSpec> = Vec::new();
    let mut j: usize = 0;
    let ghost wanted = best_first(command_ranks(query@), command_order().len() as int);
    while j < order.len()
        invariant
            j <= order.len(),
            kinds_of(all@) == command_order(),
            all@.len() == command_order().len(),
            forall|k: int| 0 <= k < all@.len() ==> shown_right(#[trigger] all@[k]),
            order@.len() == wanted.len(),
            forall|k: int| 0 <= k < order@.len() ==> #[trigger] order@[k] == wanted[k],
            forall|k: int| 0 <= k < order@.len() ==> #[trigger] order@[k] < all@.len(),
            found.len() == j,
            forall|k: int|
                0 <= k < j ==> (#[trigger] found@[k]).kind == command_order()[wanted[k]],
            forall|k: int| 0 <= k < j ==> shown_right(#[trigger] found@[k]),
        decreases order.len() - j,
    {
        assert(kinds_of(all@)[order@[j as int] as int] == all@[order@[j as int] as int].kind);
        found.push(all[order[j]]);
        j += 1;
    }
    assert(kinds_of(found@) =~= Seq::new(wanted.len(), |i: int| command_order()[wanted[i]]));
    found
}

/// Every command that a query finds is found once, and no other: whatever has a rank is
/// in the order, at one place.
pub proof fn law_every_match_is_listed_once(ranks: Seq<Option<(int, int)>>, upto: int)
    requires
        0 <= upto <= ranks.len(),
    ensures
        forall|k: int|
            #![trigger ranks[k]]
            0 <= k < upto ==> (ranks[k] is Some <==> best_first(ranks, upto).contains(k)),
        best_first(ranks, upto).no_duplicates(),
        forall|i: int|
            0 <= i < best_first(ranks, upto).len() ==> 0 <= #[trigger] best_first(ranks, upto)[i]
                < upto,
    decreases upto,
{
    if upto > 0 {
        law_every_match_is_listed_once(ranks, upto - 1);
        let before = best_first(ranks, upto - 1);
        let after = best_first(ranks, upto);
        match ranks[upto - 1] {
            Some(rank) => {
                lemma_rank_place(before, ranks, rank);
                let at = rank_place(before, ranks, rank);
                assert(after[at] == upto - 1);
                assert forall|k: int|
                    #![trigger ranks[k]]
                    0 <= k < upto implies (ranks[k] is Some <==> after.contains(k)) by {
                    if k < upto - 1 {
                        if before.contains(k) {
                            let i = choose|i: int| 0 <= i < before.len() && before[i] == k;
                            if i < at {
                                assert(after[i] == k);
                            } else {
                                assert(after[i + 1] == k);
                            }
                        }
                        if after.contains(k) {
                            let i = choose|i: int| 0 <= i < after.len() && after[i] == k;
                            if i < at {
                                assert(before[i] == k);
                            } else {
                                assert(before[i - 1] == k);
                            }
                        }
                    }
                }
            },
            None => {},
        }
    }
}

proof fn lemma_rank_place(order: Seq<int>, ranks: Seq<Option<(int, int)>>, rank: (int, int))
    ensures
        0 <= rank_place(order, ranks, rank) <= order.len(),
        forall|i: int|
            rank_place(order, ranks, rank) <= i < order.len() ==> better(
                rank,
                ranks[#[trigger] order[i]]->0,
            ),
        rank_place(order, ranks, rank) > 0 ==> !better(
            rank,
            ranks[order[rank_place(order, ranks, rank) - 1]]->0,
        ),
    decreases order.len(),
{
    if order.len() > 0 && better(rank, ranks[order.last()]->0) {
        lemma_rank_place(order.drop_last(), ranks, rank);
        assert forall|i: int| rank_place(order, ranks, rank) <= i < order.len() implies better(
            rank,
            ranks[#[trigger] order[i]]->0,
        ) by {
            if i < order.len() - 1 {
                assert(order[i] == order.drop_last()[i]);
            }
        }
    }
}

/// Nothing stands before something better.
pub proof fn law_best_matches_come_first(ranks: Seq<Option<(int, int)>>, upto: int)
    requires
        0 <= upto <= ranks.len(),
    ensures
        forall|i: int, j: int|
            #![trigger best_first(ranks, upto)[i], best_first(ranks, upto)[j]]
            0 <= i < j < best_first(ranks, upto).len() ==> !better(
                ranks[best_first(ranks, upto)[j]]->0,
                ranks[best_first(ranks, upto)[i]]->0,
            ),
    decreases upto,
{
    if upto > 0 {
        law_best_matches_come_first(ranks, upto - 1);
        let before = best_first(ranks, upto - 1);
        let after = best_first(ranks, upto);
        match ranks[upto - 1] {
            Some(rank) => {
                lemma_rank_place(before, ranks, rank);
                let at = rank_place(before, ranks, rank);
                assert forall|i: int, j: int|
                    #![trigger after[i], after[j]]
                    0 <= i < j < after.len() implies !better(
                    ranks[after[j]]->0,
                    ranks[after[i]]->0,
                ) by {
                    let a = if i < at {
                        i
                    } else {
                        i - 1
                    };
                    let b = if j < at {
                        j
                    } else {
                        j - 1
                    };
                    if i != at && j != at {
                        assert(!better(ranks[before[b]]->0, ranks[before[a]]->0));
                    } else if j == at {
                        if i < at - 1 {
                            assert(!better(ranks[before[at - 1]]->0, ranks[before[i]]->0));
                        }
                    }
                }
            },
            None => {},
        }
    }
}

/// A query is compared without its white space, part by part.
pub proof fn law_white_space_of_a_query_does_not_count(a: Seq<char>, b: Seq<char>, c: char)
    ensures
        compact(a + b) == compact(a) + compact(b),
        white_space(c) ==> compact(a.push(c) + b) == compact(a + b),
        !white_space(c) && c <= '\u{7f}' ==> compact(a.push(c)) == compact(a).push(ascii_lower(c)),
        compact(Seq::empty()).len() == 0,
    decreases b.len(),
{
    assert(a.push(c).drop_last() =~= a);
    if b.len() == 0 {
        assert(a + b =~= a);
        assert(a.push(c) + b =~= a.push(c));
        assert(compact(a) + compact(b) =~= compact(a));
    } else {
        law_white_space_of_a_query_does_not_count(a, b.drop_last(), c);
        assert((a + b).drop_last() =~= a + b.drop_last());
        assert((a + b).last() == b.last());
        assert((a.push(c) + b).drop_last() =~= a.push(c) + b.drop_last());
        assert((a.push(c) + b).last() == b.last());
        assert(compact(a) + compact(b.drop_last()) + lowered(b.last()) =~= compact(a) + (compact(
            b.drop_last(),
        ) + lowered(b.last())));
    }
    if !white_space(c) && c <= '\u{7f}' {
        assert(compact(a) + seq![ascii_lower(c)] =~= compact(a).push(ascii_lower(c)));
    }
}

proof fn lemma_first_found(s: Seq<char>, part: Seq<char>, from: int)
    requires
        0 <= from,
    ensures
        match first_found(s, part, from) {
            Some(at) => from <= at && found_at(s, part, at) && forall|k: int|
                from <= k < at ==> !#[trigger] found_at(s, part, k),
            None => forall|k: int| from <= k <= s.len() ==> !#[trigger] found_at(s, part, k),
        },
    decreases s.len() + 1 - from,
{
    if from <= s.len() && !found_at(s, part, from) {
        lemma_first_found(s, part, from + 1);
    }
}

/// A label that starts with the query is found best of all. Next comes one whose initials
/// start with it, then one that holds it, the earlier the better, and last one that holds its
/// characters apart.
pub proof fn law_better_the_nearer_the_start(
    label: Seq<char>,
    acronym: Seq<char>,
    query: Seq<char>,
)
    ensures
        ({
            let rank = rank_of(label, acronym, query);
            let starts = query.is_prefix_of(label);
            let abbreviates = query.is_prefix_of(acronym);
            let held = exists|at: int|
                0 <= at <= label.len() - query.len() && #[trigger] label.subrange(
                    at,
                    at + query.len(),
                ) == query;
            &&& starts ==> rank == Some((0int, 0int))
            &&& !starts && abbreviates ==> rank == Some((1int, 0int))
            &&& !starts && !abbreviates && held ==> (rank matches Some((class, _)) && class == 2)
            &&& !starts && !abbreviates && !held ==> (rank matches Some((class, _)) ==> class == 3)
        }),
{
    lemma_first_found(label, query, 0);
    let starts = query.is_prefix_of(label);
    let abbreviates = query.is_prefix_of(acronym);
    if query.len() <= label.len() {
        assert(starts <==> label.subrange(0, query.len() as int) == query);
    }
    if query.len() <= acronym.len() {
        assert(abbreviates <==> acronym.subrange(0, query.len() as int) == query);
    }
    if exists|at: int|
        0 <= at <= label.len() - query.len() && #[trigger] label.subrange(at, at + query.len())
            == query {
        let at = choose|at: int|
            0 <= at <= label.len() - query.len() && #[trigger] label.subrange(at, at + query.len())
                == query;
        assert(found_at(label, query, at));
    }
    if let Some(at) = first_found(label, query, 0) {
        assert(label.subrange(at, at + query.len()) == query);
    }
}

proof fn lemma_next_char(s: Seq<char>, c: char, from: int)
    requires
        0 <= from,
    ensures
        match next_char(s, c, from) {
            Some(at) => from <= at < s.len() && s[at] == c && forall|k: int|
                from <= k < at ==> #[trigger] s[k] != c,
            None => forall|k: int| from <= k < s.len() ==> #[trigger] s[k] != c,
        },
    decreases s.len() - from,
{
    if from < s.len() && s[from] != c {
        lemma_next_char(s, c, from + 1);
    }
}

/// Characters that are found apart stand at their places in the label, one behind the other.
pub proof fn law_scattered_characters_stand_in_order(s: Seq<char>, part: Seq<char>)
    ensures
        scattered(s, part) matches Some(places) ==> {
            &&& places.len() == part.len()
            &&& forall|i: int|
                0 <= i < places.len() ==> 0 <= #[trigger] places[i] < s.len() && s[places[i]]
                    == part[i]
            &&& forall|i: int, j: int| 0 <= i < j < places.len() ==> places[i] < places[j]
        },
    decreases part.len(),
{
    if part.len() > 0 {
        let front = part.drop_last();
        law_scattered_characters_stand_in_order(s, front);
        if let Some(before) = scattered(s, front) {
            let from = if before.len() == 0 {
                0
            } else {
                before.last() + 1
            };
            lemma_next_char(s, part.last(), from);
            if let Some(at) = next_char(s, part.last(), from) {
                let places = before.push(at);
                assert forall|i: int| 0 <= i < places.len() implies 0 <= #[trigger] places[i]
                    < s.len() && s[places[i]] == part[i] by {
                    if i < before.len() {
                        assert(places[i] == before[i]);
                        assert(front[i] == part[i]);
                    }
                }
                assert forall|i: int, j: int| 0 <= i < j < places.len() implies places[i]
                    < places[j] by {
                    if j == before.len() && i < before.len() - 1 {
                        assert(before[i] < before[before.len() - 1]);
                    }
                }
            }
        }
    }
}

/// A query of white space finds every command, in the order of the palette.
pub proof fn law_blank_query_finds_every_command(query: Seq<char>)
    requires
        forall|i: int| 0 <= i < query.len() ==> white_space(#[trigger] query[i]),
    ensures
        found_by(query) == command_order(),
{
    lemma_blank_compacts(query);
}

proof fn lemma_blank_compacts(query: Seq<char>)
    requires
        forall|i: int| 0 <= i < query.len() ==> white_space(#[trigger] query[i]),
    ensures
        compact(query).len() == 0,
    decreases query.len(),
{
    if query.len() > 0 {
        let front = query.drop_last();
        assert forall|i: int| 0 <= i < front.len() implies white_space(#[trigger] front[i]) by {
            assert(front[i] == query[i]);
        }
        assert(white_space(query[query.len() - 1]));
        lemma_blank_compacts(front);
    }
}

proof fn lemma_initials_front(a: Seq<char>, b: Seq<char>, upto: int)
    requires
        upto <= a.len(),
    ensures
        initials(a + b, upto) == initials(a, upto),
    decreases upto,
{
    if upto > 0 {
        lemma_initials_front(a, b, upto - 1);
    }
}

/// The initials of a label are those of its words: white space parts them, and of a word only
/// the first character counts.
pub proof fn law_initials_are_those_of_the_words(a: Seq<char>, c: char, b: Seq<char>, i: int)
    requires
        white_space(c),
        0 <= i <= b.len(),
    ensures
        initials(a.push(c) + b, a.len() + 1 + i) == initials(a, a.len() as int) + initials(b, i),
    decreases i,
{
    let all = a.push(c) + b;
    let n = a.len() as int;
    if i == 0 {
        lemma_initials_front(a, seq![c] + b, n);
        assert(a + (seq![c] + b) =~= all);
        assert(all[n] == c);
        assert(initials(a, n) + initials(b, 0) =~= initials(a, n));
    } else {
        law_initials_are_those_of_the_words(a, c, b, i - 1);
        assert(all[n + i] == b[i - 1]);
        if i > 1 {
            assert(all[n + i - 1] == b[i - 2]);
        } else {
            assert(all[n] == c);
        }
        assert(initials(a, n) + initials(b, i - 1) + lowered(b[i - 1]) =~= initials(a, n) + (
        initials(b, i - 1) + lowered(b[i - 1])));
    }
}

/// Of one word the first character is its initial.
pub proof fn law_word_has_one_initial(word: Seq<char>, upto: int)
    requires
        0 < upto <= word.len(),
        forall|i: int| 0 <= i < word.len() ==> !white_space(#[trigger] word[i]),
    ensures
        initials(word, upto) == lowered(word[0]),
    decreases upto,
{
    if upto > 1 {
        law_word_has_one_initial(word, upto - 1);
        assert(!white_space(word[upto - 2]));
    } else {
        assert(initials(word, 0) + lowered(word[0]) =~= lowered(word[0]));
    }
}

/// No two commands have the same name, and no keys give two commands.
pub proof fn law_commands_are_told_apart(a: ShellCommand, b: ShellCommand)
    requires
        a != b,
    ensures
        label_of(a) != label_of(b),
        shortcut_of(a).len() > 0 ==> shortcut_of(a) != shortcut_of(b),
{
    reveal_strlit("Open vault");
    reveal_strlit("New note");
    reveal_strlit("Rename note");
    reveal_strlit("Delete note");
    reveal_strlit("Reveal note");
    reveal_strlit("Refresh vault");
    reveal_strlit("Edit external");
    reveal_strlit("Reload note");
    reveal_strlit("Save note");
    reveal_strlit("cmd o");
    reveal_strlit("cmd n");
    reveal_strlit("cmd del");
    reveal_strlit("cmd shift r");
    reveal_strlit("cmd r");
    reveal_strlit("cmd s");
    reveal_strlit("");
    assert("Open vault"@.len() == 10 && "Open vault"@[0] == 'O' && "Open vault"@[2] == 'e' && "Open vault"@[9] == 't');
    assert("New note"@.len() == 8 && "New note"@[0] == 'N' && "New note"@[2] == 'w' && "New note"@[7] == 'e');
    assert("Rename note"@.len() == 11 && "Rename note"@[0] == 'R' && "Rename note"@[2] == 'n' && "Rename note"@[10] == 'e');
    assert("Delete note"@.len() == 11 && "Delete note"@[0] == 'D' && "Delete note"@[2] == 'l' && "Delete note"@[10] == 'e');
    assert("Reveal note"@.len() == 11 && "Reveal note"@[0] == 'R' && "Reveal note"@[2] == 'v' && "Reveal note"@[10] == 'e');
    assert("Refresh vault"@.len() == 13 && "Refresh vault"@[0] == 'R' && "Refresh vault"@[2] == 'f' && "Refresh vault"@[12] == 't');
    assert("Edit external"@.len() == 13 && "Edit external"@[0] == 'E' && "Edit external"@[2] == 'i' && "Edit external"@[12] == 'l');
    assert("Reload note"@.len() == 11 && "Reload note"@[0] == 'R' && "Reload note"@[2] == 'l' && "Reload note"@[10] == 'e');
    assert("Save note"@.len() == 9 && "Save note"@[0] == 'S' && "Save note"@[2] == 'v' && "Save note"@[8] == 'e');
    assert("cmd o"@.len() == 5 && "cmd o"@[0] == 'c' && "cmd o"@[2] == 'd' && "cmd o"@[4] == 'o');
    assert("cmd n"@.len() == 5 && "cmd n"@[0] == 'c' && "cmd n"@[2] == 'd' && "cmd n"@[4] == 'n');
    assert("cmd del"@.len() == 7 && "cmd del"@[0] == 'c' && "cmd del"@[2] == 'd' && "cmd del"@[6] == 'l');
    assert("cmd shift r"@.len() == 11 && "cmd shift r"@[0] == 'c' && "cmd shift r"@[2] == 'd' && "cmd shift r"@[10] == 'r');
    assert("cmd r"@.len() == 5 && "cmd r"@[0] == 'c' && "cmd r"@[2] == 'd' && "cmd r"@[4] == 'r');
    assert("cmd s"@.len() == 5 && "cmd s"@[0] == 'c' && "cmd s"@[2] == 'd' && "cmd s"@[4] == 's');
}

} // verus!
