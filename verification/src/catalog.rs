//! The template catalog: canonical template names mapped to the locations
//! their bodies can be fetched from, and its construction from a listing of
//! repository files.

use vstd::prelude::*;

use crate::chars::{string_from_chars, to_chars};
use crate::text::{contains_chars, contains_seq, remove_all, remove_chars};

verus! {

/// What `str::to_lowercase` returns; it depends on the characters alone.
pub uninterp spec fn lower_of(s: Seq<char>) -> Seq<char>;

/// Relies on `str::to_lowercase`: the result is a function of the characters
/// alone, and an empty string stays empty.
#[verifier::external_body]
fn to_lower(s: &str) -> (r: String)
    ensures
        r@ == lower_of(s@),
        s@.len() == 0 ==> r@.len() == 0,
{
    s.to_lowercase()
}

/// One file of the remote template listing: its name and, when the file can be
/// downloaded, the location of its contents.
pub struct FileRes {
    pub name: String,
    pub download_url: Option<String>,
}

/// The characters of the template file-name extension that is stripped.
pub open spec fn gitignore_ext() -> Seq<char> {
    seq!['.', 'g', 'i', 't', 'i', 'g', 'n', 'o', 'r', 'e']
}

/// The characters a file name must contain to count as a template.
pub open spec fn gitignore_word() -> Seq<char> {
    seq!['g', 'i', 't', 'i', 'g', 'n', 'o', 'r', 'e']
}

/// The canonical (extension-stripped, lowercased) form of a file name.
pub open spec fn canonical_name(name: Seq<char>) -> Seq<char> {
    lower_of(remove_all(name, gitignore_ext()))
}

/// The source location recorded for a listing entry: its download location,
/// or empty when it has none.
pub open spec fn entry_url(f: FileRes) -> Seq<char> {
    match f.download_url {
        Option::Some(u) => u@,
        Option::None => Seq::<char>::empty(),
    }
}

/// A listing entry enters the catalog when its name marks it as a template
/// and a download location exists for it.
pub open spec fn keeps_entry(f: FileRes) -> bool {
    contains_seq(f.name@, gitignore_word()) && f.download_url is Some
}

/// The first value bound to `name`, scanning the entries in order.
pub open spec fn spec_get(s: Seq<(Seq<char>, Seq<char>)>, name: Seq<char>) -> Option<Seq<char>>
    decreases s.len(),
{
    if s.len() == 0 {
        Option::None
    } else if s[0].0 == name {
        Option::Some(s[0].1)
    } else {
        spec_get(s.drop_first(), name)
    }
}

/// The entries after binding `name` to `url`: the value is replaced in place
/// when the key is present, else the pair is appended.
pub open spec fn spec_insert(
    s: Seq<(Seq<char>, Seq<char>)>,
    name: Seq<char>,
    url: Seq<char>,
) -> Seq<(Seq<char>, Seq<char>)>
    decreases s.len(),
{
    if s.len() == 0 {
        seq![(name, url)]
    } else if s[0].0 == name {
        seq![(name, url)] + s.drop_first()
    } else {
        seq![s[0]] + spec_insert(s.drop_first(), name, url)
    }
}

/// The catalog built from a file listing: each kept entry inserted in order
/// under its canonical name.
pub open spec fn catalog_of(fs: Seq<FileRes>) -> Seq<(Seq<char>, Seq<char>)>
    decreases fs.len(),
{
    if fs.len() == 0 {
        Seq::<(Seq<char>, Seq<char>)>::empty()
    } else {
        let prev = catalog_of(fs.drop_last());
        if keeps_entry(fs.last()) {
            spec_insert(prev, canonical_name(fs.last().name@), entry_url(fs.last()))
        } else {
            prev
        }
    }
}

/// A catalog of template names and their source locations, in insertion
/// order, with unique names.
pub struct Catalog {
    entries: Vec<(String, String)>,
}

impl View for Catalog {
    type V = Seq<(Seq<char>, Seq<char>)>;

    closed spec fn view(&self) -> Seq<(Seq<char>, Seq<char>)> {
        Seq::new(self.entries@.len(), |i: int| (self.entries@[i].0@, self.entries@[i].1@))
    }
}

pub proof fn lemma_spec_get_skip(s: Seq<(Seq<char>, Seq<char>)>, name: Seq<char>, i: int)
    requires
        0 <= i <= s.len(),
        forall|j: int| 0 <= j < i ==> (#[trigger] s[j]).0 != name,
    ensures
        spec_get(s, name) == spec_get(s.skip(i), name),
    decreases i,
{
    if i == 0 {
        assert(s.skip(0) =~= s);
    } else {
        assert(s[0].0 != name);
        assert forall|j: int| 0 <= j < i - 1 implies (#[trigger] s.drop_first()[j]).0 != name by {
            assert(s.drop_first()[j] == s[j + 1]);
        }
        lemma_spec_get_skip(s.drop_first(), name, i - 1);
        assert(s.drop_first().skip(i - 1) =~= s.skip(i));
    }
}

pub proof fn lemma_spec_get_none(s: Seq<(Seq<char>, Seq<char>)>, name: Seq<char>)
    requires
        forall|j: int| 0 <= j < s.len() ==> (#[trigger] s[j]).0 != name,
    ensures
        spec_get(s, name) is None,
{
    lemma_spec_get_skip(s, name, s.len() as int);
    assert(s.skip(s.len() as int) =~= Seq::<(Seq<char>, Seq<char>)>::empty());
}

pub proof fn lemma_spec_insert_found(
    s: Seq<(Seq<char>, Seq<char>)>,
    name: Seq<char>,
    url: Seq<char>,
    i: int,
)
    requires
        0 <= i < s.len(),
        s[i].0 == name,
        forall|j: int| 0 <= j < i ==> (#[trigger] s[j]).0 != name,
    ensures
        spec_insert(s, name, url) == s.update(i, (name, url)),
    decreases i,
{
    if i == 0 {
        assert(spec_insert(s, name, url) =~= s.update(0, (name, url)));
    } else {
        assert(s[0].0 != name);
        assert forall|j: int| 0 <= j < i - 1 implies (#[trigger] s.drop_first()[j]).0 != name by {
            assert(s.drop_first()[j] == s[j + 1]);
        }
        assert(s.drop_first()[i - 1] == s[i]);
        lemma_spec_insert_found(s.drop_first(), name, url, i - 1);
        assert(seq![s[0]] + s.drop_first().update(i - 1, (name, url)) =~= s.update(
            i,
            (name, url),
        ));
    }
}

pub proof fn lemma_spec_insert_new(s: Seq<(Seq<char>, Seq<char>)>, name: Seq<char>, url: Seq<char>)
    requires
        forall|j: int| 0 <= j < s.len() ==> (#[trigger] s[j]).0 != name,
    ensures
        spec_insert(s, name, url) == s.push((name, url)),
    decreases s.len(),
{
    if s.len() == 0 {
        assert(spec_insert(s, name, url) =~= s.push((name, url)));
    } else {
        assert(s[0].0 != name);
        assert forall|j: int|
            0 <= j < s.drop_first().len() implies (#[trigger] s.drop_first()[j]).0 != name by {
            assert(s.drop_first()[j] == s[j + 1]);
        }
        lemma_spec_insert_new(s.drop_first(), name, url);
        assert(seq![s[0]] + s.drop_first().push((name, url)) =~= s.push((name, url)));
    }
}

impl Catalog {
    /// The catalog's names are pairwise distinct.
    pub open spec fn wf(self) -> bool {
        forall|i: int, j: int|
            0 <= i < j < self@.len() ==> (#[trigger] self@[i]).0 != (#[trigger] self@[j]).0
    }

    /// An empty catalog.
    pub fn new() -> (r: Catalog)
        ensures
            r@ == Seq::<(Seq<char>, Seq<char>)>::empty(),
            r.wf(),
    {
        let r = Catalog { entries: Vec::new() };
        proof {
            assert(r@ =~= Seq::<(Seq<char>, Seq<char>)>::empty());
        }
        r
    }

    /// How many templates the catalog holds.
    pub fn len(&self) -> (n: usize)
        ensures
            n == self@.len(),
    {
        self.entries.len()
    }

    /// The name at position `i`, in insertion order.
    pub fn key_at(&self, i: usize) -> (r: &String)
        requires
            i < self@.len(),
        ensures
            r@ == self@[i as int].0,
    {
        &self.entries[i].0
    }

    /// The position of `name` among the entries, when it is present.
    fn find_index(&self, name: &String) -> (r: Option<usize>)
        ensures
            match r {
                Option::Some(i) => i < self@.len() && self@[i as int].0 == name@ && forall|j: int|
                    0 <= j < i ==> (#[trigger] self@[j]).0 != name@,
                Option::None => forall|j: int|
                    0 <= j < self@.len() ==> (#[trigger] self@[j]).0 != name@,
            },
    {
        let mut i: usize = 0;
        let n = self.entries.len();
        while i < n
            invariant
                i <= n,
                n == self@.len(),
                forall|j: int| 0 <= j < i ==> (#[trigger] self@[j]).0 != name@,
            decreases n - i,
        {
            if self.entries[i].0 == *name {
                return Some(i);
            }
            i = i + 1;
        }
        None
    }

    /// The source location recorded for `name`, when the catalog has it.
    pub fn get(&self, name: &str) -> (r: Option<&String>)
        ensures
            match r {
                Option::Some(u) => spec_get(self@, name@) == Option::Some(u@),
                Option::None => spec_get(self@, name@) is None,
            },
    {
        let q: String = name.to_owned();
        match self.find_index(&q) {
            Some(i) => {
                proof {
                    lemma_spec_get_skip(self@, name@, i as int);
                    assert(self@.skip(i as int)[0] == self@[i as int]);
                    assert(self@.skip(i as int).len() > 0);
                }
                Some(&self.entries[i].1)
            },
            None => {
                proof {
                    lemma_spec_get_none(self@, name@);
                }
                None
            },
        }
    }

    /// Is `name` a catalog key?
    pub fn contains_key(&self, name: &str) -> (r: bool)
        ensures
            r == (spec_get(self@, name@) is Some),
    {
        match self.get(name) {
            Some(_) => true,
            None => false,
        }
    }

    /// Bind `name` to `url`: replace its value when present, append otherwise.
    pub fn insert(&mut self, name: String, url: String)
        ensures
            final(self)@ == spec_insert(old(self)@, name@, url@),
            old(self).wf() ==> final(self).wf(),
    {
        let ghost s = self@;
        match self.find_index(&name) {
            Some(i) => {
                self.entries.remove(i);
                self.entries.insert(i, (name, url));
                proof {
                    lemma_spec_insert_found(s, name@, url@, i as int);
                    assert(self@ =~= s.update(i as int, (name@, url@)));
                    if old(self).wf() {
                        assert forall|a: int, b: int|
                            0 <= a < b < self@.len() implies (#[trigger] self@[a]).0
                            != (#[trigger] self@[b]).0 by {
                            assert(self@[a].0 == s[a].0);
                            assert(self@[b].0 == s[b].0);
                        }
                    }
                }
            },
            None => {
                self.entries.push((name, url));
                proof {
                    lemma_spec_insert_new(s, name@, url@);
                    assert(self@ =~= s.push((name@, url@)));
                    if old(self).wf() {
                        assert forall|a: int, b: int|
                            0 <= a < b < self@.len() implies (#[trigger] self@[a]).0
                            != (#[trigger] self@[b]).0 by {
                            if b < s.len() {
                                assert(self@[a].0 == s[a].0);
                                assert(self@[b].0 == s[b].0);
                            } else {
                                assert(self@[b].0 == name@);
                                assert(self@[a].0 == s[a].0);
                            }
                        }
                    }
                }
            },
        }
    }
}

/// Canonicalize one listing entry to a `(name, source location)` pair: the
/// extension is stripped from the name and it is lowercased; a missing
/// download location becomes the empty string.
pub fn destructure_to_tup(file_struct: &FileRes) -> (r: (String, String))
    ensures
        r.0@ == canonical_name(file_struct.name@),
        r.1@ == entry_url(*file_struct),
{
    let name_chars = to_chars(file_struct.name.as_str());
    let ext = to_chars(".gitignore");
    proof {
        reveal_strlit(".gitignore");
        assert(ext@ =~= gitignore_ext());
    }
    let stripped = remove_chars(&name_chars, &ext);
    let stripped_str = string_from_chars(&stripped);
    let lowered = to_lower(stripped_str.as_str());
    let url = match &file_struct.download_url {
        Some(u) => u.clone(),
        None => String::new(),
    };
    (lowered, url)
}

/// Build the catalog from the file listing: entries whose name marks them as
/// templates and which have a download location, canonicalized and inserted
/// in listing order.
pub fn build_file_map(files: &Vec<FileRes>) -> (r: Catalog)
    ensures
        r@ == catalog_of(files@),
        r.wf(),
{
    let mut cat = Catalog::new();
    let word = to_chars("gitignore");
    proof {
        reveal_strlit("gitignore");
        assert(word@ =~= gitignore_word());
        assert(files@.take(0) =~= Seq::<FileRes>::empty());
    }
    let mut i: usize = 0;
    while i < files.len()
        invariant
            i <= files@.len(),
            word@ == gitignore_word(),
            cat@ == catalog_of(files@.take(i as int)),
            cat.wf(),
        decreases files@.len() - i,
    {
        let f = &files[i];
        let name_chars = to_chars(f.name.as_str());
        let keep = contains_chars(&name_chars, &word) && f.download_url.is_some();
        if keep {
            let tup = destructure_to_tup(f);
            cat.insert(tup.0, tup.1);
        }
        i = i + 1;
        proof {
            assert(files@.take(i as int).drop_last() =~= files@.take(i - 1));
            assert(files@.take(i as int).last() == files@[i - 1]);
        }
    }
    proof {
        assert(files@.take(files@.len() as int) =~= files@);
    }
    cat
}

} // verus!
