//! The searchable item and the text normalization that search is built on.
use vstd::prelude::*;

use crate::text;

verus! {

/// Search text: the alphanumeric characters of `s`, each lowercased
/// (`char::to_lowercase` may yield several characters for one).
pub open spec fn normalize(s: Seq<char>) -> Seq<char>
    decreases s.len(),
{
    if s.len() == 0 {
        Seq::empty()
    } else {
        normalize(s.drop_last()) + (if text::unicode_alphanumeric(s.last()) {
            text::unicode_to_lower(s.last())
        } else {
            Seq::empty()
        })
    }
}

pub proof fn lemma_normalize_append(a: Seq<char>, b: Seq<char>)
    ensures
        normalize(a + b) == normalize(a) + normalize(b),
    decreases b.len(),
{
    if b.len() == 0 {
        assert(a + b =~= a);
        assert(normalize(a) + normalize(b) =~= normalize(a));
    } else {
        lemma_normalize_append(a, b.drop_last());
        assert((a + b).drop_last() =~= a + b.drop_last());
        assert((a + b).last() == b.last());
    }
}

/// Every character of `s` is ASCII.
pub open spec fn all_ascii(s: Seq<char>) -> bool {
    forall|i: int| 0 <= i < s.len() ==> text::is_ascii_char(#[trigger] s[i])
}

/// The search text of ASCII text: its letters and digits, lowercased.
pub open spec fn ascii_normalize(s: Seq<char>) -> Seq<char>
    decreases s.len(),
{
    if s.len() == 0 {
        Seq::empty()
    } else {
        ascii_normalize(s.drop_last()) + (if text::ascii_alphanumeric(s.last()) {
            seq![text::ascii_lower_char(s.last())]
        } else {
            Seq::empty()
        })
    }
}

proof fn lemma_ascii_normalize_append(a: Seq<char>, b: Seq<char>)
    ensures
        ascii_normalize(a + b) == ascii_normalize(a) + ascii_normalize(b),
    decreases b.len(),
{
    if b.len() == 0 {
        assert(a + b =~= a);
        assert(ascii_normalize(a) + ascii_normalize(b) =~= ascii_normalize(a));
    } else {
        lemma_ascii_normalize_append(a, b.drop_last());
        assert((a + b).drop_last() =~= a + b.drop_last());
        assert((a + b).last() == b.last());
    }
}

/// Normalizing ASCII text gives ASCII lowercase letters and digits, and
/// normalizing that again changes nothing.
pub proof fn law_ascii_normalize_settles(s: Seq<char>)
    ensures
        all_ascii(ascii_normalize(s)),
        ascii_normalize(ascii_normalize(s)) == ascii_normalize(s),
    decreases s.len(),
{
    if s.len() > 0 {
        let head = ascii_normalize(s.drop_last());
        law_ascii_normalize_settles(s.drop_last());
        let c = s.last();
        if text::ascii_alphanumeric(c) {
            let l = text::ascii_lower_char(c);
            assert(text::ascii_alphanumeric(l) && text::is_ascii_char(l) && text::ascii_lower_char(l) == l);
            lemma_ascii_normalize_append(head, seq![l]);
            assert(seq![l].drop_last() =~= Seq::<char>::empty());
            assert(seq![l].last() == l);
            assert(ascii_normalize(Seq::<char>::empty()) =~= Seq::<char>::empty());
            assert(ascii_normalize(seq![l]) =~= Seq::<char>::empty() + seq![l]);
            assert(ascii_normalize(seq![l]) =~= seq![l]);
        } else {
            assert(ascii_normalize(s) =~= head);
        }
    }
}

/// The search text of a character vector.
pub fn normalize_chars(v: &Vec<char>) -> (out: Vec<char>)
    ensures
        out@ == normalize(v@),
        all_ascii(v@) ==> out@ == ascii_normalize(v@),
{
    let mut out: Vec<char> = Vec::new();
    let mut i: usize = 0;
    while i < v.len()
        invariant
            i <= v.len(),
            out@ == normalize(v@.take(i as int)),
            all_ascii(v@) ==> out@ == ascii_normalize(v@.take(i as int)),
        decreases v.len() - i,
    {
        let c = v[i];
        let ghost before = out@;
        if text::is_alphanumeric(c) {
            let lower = text::to_lowercase(c);
            let mut k: usize = 0;
            while k < lower.len()
                invariant
                    k <= lower.len(),
                    out@ == before + lower@.take(k as int),
                decreases lower.len() - k,
            {
                out.push(lower[k]);
                proof {
                    assert(lower@.take((k + 1) as int) =~= lower@.take(k as int).push(lower@[k as int]));
                }
                k = k + 1;
            }
            proof {
                assert(lower@.take(lower.len() as int) =~= lower@);
            }
        }
        proof {
            assert(v@.take((i + 1) as int).drop_last() =~= v@.take(i as int));
            assert(v@.take((i + 1) as int).last() == c);
            if !text::unicode_alphanumeric(c) {
                assert(out@ =~= before + Seq::<char>::empty());
            }
        }
        i = i + 1;
    }
    proof {
        assert(v@.take(v.len() as int) =~= v@);
    }
    out
}

/// The alphanumeric characters of `input`, lowercased: the text that search compares.
pub fn normalize_for_search(input: &str) -> (out: String)
    ensures
        out@ == normalize(input@),
        all_ascii(input@) ==> out@ == ascii_normalize(input@),
{
    let v = text::chars_of(input);
    let n = normalize_chars(&v);
    text::string_of(&n)
}

/// One entry that search can return: an app, a file, a folder, an action or a
/// clipboard entry.
#[derive(Debug)]
pub struct SearchItem {
    pub id: String,
    pub kind: String,
    pub title: String,
    pub path: String,
    pub use_count: u32,
    pub last_accessed_epoch_secs: i64,
    pub normalized_title: String,
    pub normalized_search_text: String,
}

impl SearchItem {
    /// The normalized title stored with the item.
    pub open spec fn norm_title(&self) -> Seq<char> {
        self.normalized_title@
    }

    /// The normalized "title path" text stored with the item.
    pub open spec fn norm_text(&self) -> Seq<char> {
        self.normalized_search_text@
    }

    /// The item's normalized fields are those of its title and path.
    pub open spec fn normalized_from_fields(&self) -> bool {
        &&& self.norm_title() == normalize(self.title@)
        &&& self.norm_text() == normalize(self.title@ + seq![' '] + self.path@)
    }

    /// The item is what `new` builds from these four texts: no uses, never
    /// accessed, and normalized from its title and path.
    pub open spec fn built_from(&self, id: Seq<char>, kind: Seq<char>, title: Seq<char>, path: Seq<char>) -> bool {
        &&& self.id@ == id
        &&& self.kind@ == kind
        &&& self.title@ == title
        &&& self.path@ == path
        &&& self.use_count == 0
        &&& self.last_accessed_epoch_secs == 0
        &&& self.normalized_from_fields()
    }

    pub fn new(id: &str, kind: &str, title: &str, path: &str) -> (item: Self)
        ensures
            item.id@ == id@,
            item.kind@ == kind@,
            item.title@ == title@,
            item.path@ == path@,
            item.use_count == 0,
            item.last_accessed_epoch_secs == 0,
            item.normalized_from_fields(),
    {
        Self::from_owned(text::owned(id), text::owned(kind), text::owned(title), text::owned(path), 0, 0)
    }

    pub fn from_owned(
        id: String,
        kind: String,
        title: String,
        path: String,
        use_count: u32,
        last_accessed_epoch_secs: i64,
    ) -> (item: Self)
        ensures
            item.id == id,
            item.kind == kind,
            item.title == title,
            item.path == path,
            item.use_count == use_count,
            item.last_accessed_epoch_secs == last_accessed_epoch_secs,
            item.normalized_from_fields(),
    {
        let normalized_title = normalize_for_search(title.as_str());
        let mut joined = text::owned(title.as_str());
        text::push_char(&mut joined, ' ');
        text::push_str(&mut joined, path.as_str());
        let normalized_search_text = normalize_for_search(joined.as_str());
        proof {
            assert(joined@ =~= title@ + seq![' '] + path@);
        }
        Self {
            id,
            kind,
            title,
            path,
            use_count,
            last_accessed_epoch_secs,
            normalized_title,
            normalized_search_text,
        }
    }

    /// The same item with new usage counters.
    pub fn with_usage(self, use_count: u32, last_accessed_epoch_secs: i64) -> (item: Self)
        ensures
            item.id == self.id,
            item.kind == self.kind,
            item.title == self.title,
            item.path == self.path,
            item.use_count == use_count,
            item.last_accessed_epoch_secs == last_accessed_epoch_secs,
            item.norm_title() == self.norm_title(),
            item.norm_text() == self.norm_text(),
    {
        let mut item = self;
        item.use_count = use_count;
        item.last_accessed_epoch_secs = last_accessed_epoch_secs;
        item
    }

    pub fn normalized_title(&self) -> (s: &str)
        ensures
            s@ == self.norm_title(),
    {
        self.normalized_title.as_str()
    }

    pub fn normalized_search_text(&self) -> (s: &str)
        ensures
            s@ == self.norm_text(),
    {
        self.normalized_search_text.as_str()
    }

    /// A field-for-field copy.
    pub fn duplicate(&self) -> (item: Self)
        ensures
            item == *self,
    {
        Self {
            id: self.id.clone(),
            kind: self.kind.clone(),
            title: self.title.clone(),
            path: self.path.clone(),
            use_count: self.use_count,
            last_accessed_epoch_secs: self.last_accessed_epoch_secs,
            normalized_title: self.normalized_title.clone(),
            normalized_search_text: self.normalized_search_text.clone(),
        }
    }
}

impl Clone for SearchItem {
    fn clone(&self) -> (item: Self)
        ensures
            item == *self,
    {
        self.duplicate()
    }
}

} // verus!
