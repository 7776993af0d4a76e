//! The names of installed programs, and the heuristic that matches a file
//! against them.

use crate::models::{line_views, optional_text};
use crate::text::{
    chars_equal, chars_of, contains_chars, contains_seq, lowercase, to_ascii_lowercase, trim,
    trim_bounds,
};
use vstd::prelude::*;
use vstd::string::*;

verus! {

/// A set of program names. Each name is stored once.
#[derive(Debug)]
pub struct InstalledNames {
    names: Vec<String>,
}

impl View for InstalledNames {
    type V = Set<Seq<char>>;

    closed spec fn view(&self) -> Set<Seq<char>> {
        line_views(self.names@).to_set()
    }
}

/// A display name as it is stored: trimmed, ASCII letters in lower case.
pub open spec fn normalized_name(raw: Seq<char>) -> Seq<char> {
    lowercase(trim(raw))
}

/// The names collected from `raw`: the normalized form of each display name
/// that is at least four characters long once normalized.
pub open spec fn collected_names(raw: Seq<String>) -> Set<Seq<char>> {
    Set::new(
        |name: Seq<char>|
            name.len() >= 4 && exists|i: int|
                0 <= i < raw.len() && name == normalized_name(#[trigger] raw[i]@),
    )
}

/// Whether the lower-cased file stem `candidate` is taken to belong to the
/// installed program `name`: the name has at least five characters, and one
/// of the two occurs inside the other.
pub open spec fn names_match(candidate: Seq<char>, name: Seq<char>) -> bool {
    &&& name.len() >= 5
    &&& (contains_seq(candidate, name) || contains_seq(name, candidate))
}

/// Whether `found` is a fitting answer to the question which of `names` the
/// file stem `file_stem` belongs to: a name of the set that matches the stem in
/// lower case, or nothing where no name of the set matches.
pub open spec fn is_match_among(
    file_stem: Seq<char>,
    names: Set<Seq<char>>,
    found: Option<Seq<char>>,
) -> bool {
    match found {
        Some(name) => names.contains(name) && names_match(lowercase(file_stem), name),
        None => forall|name: Seq<char>|
            names.contains(name) ==> !names_match(lowercase(file_stem), name),
    }
}

impl InstalledNames {
    #[verifier::type_invariant]
    closed spec fn each_name_once(&self) -> bool {
        line_views(self.names@).no_duplicates()
    }

    /// The empty set.
    pub fn new() -> (set: InstalledNames)
        ensures
            set@ == Set::<Seq<char>>::empty(),
    {
        let set = InstalledNames { names: Vec::new() };
        assert(line_views(set.names@) =~= Seq::<Seq<char>>::empty());
        assert(set@ =~= Set::<Seq<char>>::empty());
        set
    }

    /// Whether `name` is in the set.
    pub fn contains(&self, name: &str) -> (found: bool)
        ensures
            found == self@.contains(name@),
    {
        let mut i: usize = 0;
        while i < self.names.len()
            invariant
                i <= self.names.len(),
                forall|k: int| 0 <= k < i ==> self.names@[k]@ != name@,
            decreases self.names.len() - i,
        {
            if chars_equal(self.names[i].as_str(), name) {
                assert(line_views(self.names@)[i as int] == name@);
                return true;
            }
            i = i + 1;
        }
        false
    }

    /// Adds `name` to the set. Returns whether it was new.
    pub fn insert(&mut self, name: String) -> (added: bool)
        ensures
            final(self)@ == old(self)@.insert(name@),
            added == !old(self)@.contains(name@),
    {
        proof {
            use_type_invariant(&*self);
        }
        if self.contains(name.as_str()) {
            assert(self@ =~= self@.insert(name@));
            return false;
        }
        let ghost before = line_views(self.names@);
        let mut names: Vec<String> = Vec::new();
        assert(line_views(names@) =~= Seq::<Seq<char>>::empty());
        core::mem::swap(&mut self.names, &mut names);
        names.push(name);
        assert(line_views(names@) =~= before.push(name@));
        core::mem::swap(&mut self.names, &mut names);
        proof {
            before.lemma_push_to_set_commute(name@);
        }
        true
    }

    /// How many names the set holds.
    pub fn len(&self) -> (n: usize)
        ensures
            n == self@.len(),
    {
        proof {
            use_type_invariant(self);
            line_views(self.names@).unique_seq_to_set();
        }
        self.names.len()
    }

    /// The names of the set, each once.
    pub fn names(&self) -> (names: &Vec<String>)
        ensures
            line_views(names@).to_set() == self@,
            line_views(names@).no_duplicates(),
    {
        proof {
            use_type_invariant(self);
        }
        &self.names
    }
}

/// One more display name adds its normalized form to the names collected,
/// if that has four characters or more, and nothing otherwise.
proof fn lemma_collected_one_more(raw: Seq<String>, next: String)
    ensures
        collected_names(raw.push(next)) == if normalized_name(next@).len() >= 4 {
            collected_names(raw).insert(normalized_name(next@))
        } else {
            collected_names(raw)
        },
{
    let longer = raw.push(next);
    let name = normalized_name(next@);
    let expected = if name.len() >= 4 {
        collected_names(raw).insert(name)
    } else {
        collected_names(raw)
    };
    assert forall|n: Seq<char>| expected.contains(n) implies collected_names(longer).contains(
        n,
    ) by {
        if name.len() >= 4 && n == name {
            assert(n == normalized_name(longer[raw.len() as int]@));
        } else {
            let k = choose|k: int| 0 <= k < raw.len() && n == normalized_name(#[trigger] raw[k]@);
            assert(n == normalized_name(longer[k]@));
        }
    }
    assert forall|n: Seq<char>| collected_names(longer).contains(n) implies expected.contains(
        n,
    ) by {
        let k = choose|k: int|
            0 <= k < longer.len() && n == normalized_name(#[trigger] longer[k]@);
        if k < raw.len() {
            assert(n == normalized_name(raw[k]@));
        }
    }
    assert(collected_names(longer) =~= expected);
}

/// Builds the set of installed program names from the display names that the
/// platform's software registry lists: each is trimmed and put in lower case,
/// and kept if at least four characters are left. A platform without such a
/// registry has no display names, and so an empty set.
pub fn installed_program_names(display_names: &Vec<String>) -> (names: InstalledNames)
    ensures
        names@ == collected_names(display_names@),
{
    let mut names = InstalledNames::new();
    let mut i: usize = 0;
    assert(collected_names(display_names@.take(0)) =~= Set::<Seq<char>>::empty());
    while i < display_names.len()
        invariant
            i <= display_names.len(),
            names@ == collected_names(display_names@.take(i as int)),
        decreases display_names.len() - i,
    {
        let raw = display_names[i].as_str();
        let chars = chars_of(raw);
        let (a, b) = trim_bounds(&chars, 0, chars.len());
        proof {
            assert(chars@.subrange(0, chars.len() as int) =~= raw@);
            assert(display_names@.take(i + 1) =~= display_names@.take(i as int).push(
                display_names@[i as int],
            ));
            lemma_collected_one_more(display_names@.take(i as int), display_names@[i as int]);
        }
        if b - a >= 4 {
            names.insert(to_ascii_lowercase(raw.substring_char(a, b)));
        }
        i = i + 1;
    }
    assert(display_names@.take(i as int) =~= display_names@);
    names
}

/// Looks for an installed program that the file stem `file_stem` belongs to.
/// The stem is compared in lower case. Where several names match, any one of
/// them may be returned.
pub fn find_program_match(file_stem: &str, installed_names: &InstalledNames) -> (found: Option<
    String,
>)
    ensures
        is_match_among(file_stem@, installed_names@, optional_text(found)),
{
    let lowered = to_ascii_lowercase(file_stem);
    let candidate = chars_of(lowered.as_str());
    let names = installed_names.names();
    let mut i: usize = 0;
    while i < names.len()
        invariant
            i <= names.len(),
            line_views(names@).to_set() == installed_names@,
            candidate@ == lowercase(file_stem@),
            forall|k: int| 0 <= k < i ==> !names_match(candidate@, #[trigger] names@[k]@),
        decreases names.len() - i,
    {
        let name = chars_of(names[i].as_str());
        if name.len() >= 5 && (contains_chars(&candidate, &name) || contains_chars(
            &name,
            &candidate,
        )) {
            assert(line_views(names@)[i as int] == names@[i as int]@);
            assert(line_views(names@).contains(names@[i as int]@));
            return Some(names[i].clone());
        }
        i = i + 1;
    }
    assert forall|name: Seq<char>| installed_names@.contains(name) implies !names_match(
        lowercase(file_stem@),
        name,
    ) by {
        let k = choose|k: int| 0 <= k < names@.len() && line_views(names@)[k] == name;
        assert(!names_match(candidate@, names@[k]@));
    }
    None
}

/// Names of fewer than five characters never produce a match: where every
/// name of the set is that short, the answer for any file stem is that
/// nothing matches.
pub proof fn lemma_short_names_never_match(
    file_stem: Seq<char>,
    names: Set<Seq<char>>,
    found: Option<Seq<char>>,
)
    requires
        is_match_among(file_stem, names, found),
        forall|name: Seq<char>| names.contains(name) ==> name.len() < 5,
    ensures
        found is None,
{
}

/// A name of five characters or more can match: it matches every stem that
/// it occurs in, and every stem that occurs in it.
pub proof fn lemma_long_names_can_match(candidate: Seq<char>, name: Seq<char>)
    requires
        name.len() >= 5,
    ensures
        contains_seq(candidate, name) ==> names_match(candidate, name),
        contains_seq(name, candidate) ==> names_match(candidate, name),
        names_match(name, name),
{
    assert(name.subrange(0, name.len() as int) =~= name);
    assert(crate::text::occurs_at(name, name, 0));
}

/// Where some name of the set matches, a match is found: the answer is
/// nothing only if no name matches.
pub proof fn lemma_match_is_found(
    file_stem: Seq<char>,
    names: Set<Seq<char>>,
    found: Option<Seq<char>>,
    name: Seq<char>,
)
    requires
        is_match_among(file_stem, names, found),
        names.contains(name),
        names_match(lowercase(file_stem), name),
    ensures
        found is Some,
{
}

} // verus!
