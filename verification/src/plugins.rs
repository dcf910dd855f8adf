//! Extractor descriptions, errors and the registry that routes MIME types to
//! extractors.

use vstd::prelude::*;
use crate::text;
use crate::types::strs;

verus! {

/// The library version that every extractor reports.
pub const VERSION: &'static str = "4.0.0";

/// Errors raised by extraction and registration.
#[derive(Debug, PartialEq, Eq)]
pub enum KreuzbergError {
    /// The input could not be parsed.
    Parsing(String),
    /// No extractor handles the MIME type.
    UnsupportedFormat(String),
}

/// The views of static string slices.
pub open spec fn str_views(v: Seq<&str>) -> Seq<Seq<char>> {
    v.map_values(|s: &str| s@)
}

/// What the registry knows of an extractor: its name, priority and MIME types.
#[derive(Debug)]
pub struct ExtractorInfo {
    pub name: String,
    pub priority: i32,
    pub mime_types: Vec<String>,
}

/// The mathematical value of an extractor description.
pub struct InfoView {
    pub name: Seq<char>,
    pub priority: i32,
    pub mime_types: Seq<Seq<char>>,
}

impl View for ExtractorInfo {
    type V = InfoView;

    open spec fn view(&self) -> InfoView {
        InfoView { name: self.name@, priority: self.priority, mime_types: strs(self.mime_types@) }
    }
}

/// A description built from static parts.
pub fn make_info(name: &str, priority: i32, mime_types: &[&str]) -> (r: ExtractorInfo)
    ensures
        r@ == (InfoView { name: name@, priority, mime_types: str_views(mime_types@) }),
{
    let mut m: Vec<String> = Vec::new();
    let mut k: usize = 0;
    while k < mime_types.len()
        invariant
            k <= mime_types@.len(),
            strs(m@) == str_views(mime_types@).take(k as int),
        decreases mime_types@.len() - k,
    {
        let ghost before = m@;
        m.push(mime_types[k].to_owned());
        assert(strs(m@) =~= strs(before).push(mime_types@[k as int]@));
        assert(str_views(mime_types@).take(k + 1) =~= str_views(mime_types@).take(k as int).push(
            mime_types@[k as int]@,
        ));
        k = k + 1;
    }
    assert(str_views(mime_types@).take(mime_types@.len() as int) =~= str_views(mime_types@));
    ExtractorInfo { name: name.to_owned(), priority, mime_types: m }
}

/// A copy of a string list.
fn clone_strings(v: &Vec<String>) -> (r: Vec<String>)
    ensures
        strs(r@) == strs(v@),
{
    let mut r: Vec<String> = Vec::new();
    let mut k: usize = 0;
    while k < v.len()
        invariant
            k <= v@.len(),
            strs(r@) == strs(v@).take(k as int),
        decreases v@.len() - k,
    {
        let ghost before = r@;
        r.push(v[k].clone());
        assert(strs(r@) =~= strs(before).push(v@[k as int]@));
        assert(strs(v@).take(k + 1) =~= strs(v@).take(k as int).push(v@[k as int]@));
        k = k + 1;
    }
    assert(strs(v@).take(v@.len() as int) =~= strs(v@));
    r
}

impl ExtractorInfo {
    /// A copy of this description.
    pub fn duplicate(&self) -> (r: ExtractorInfo)
        ensures
            r@ == self@,
    {
        ExtractorInfo {
            name: self.name.clone(),
            priority: self.priority,
            mime_types: clone_strings(&self.mime_types),
        }
    }

    /// Whether the extractor handles `mime`.
    pub fn supports(&self, mime: &str) -> (r: bool)
        ensures
            r == self@.mime_types.contains(mime@),
    {
        let mut k: usize = 0;
        while k < self.mime_types.len()
            invariant
                k <= self.mime_types@.len(),
                forall|j: int| 0 <= j < k ==> strs(self.mime_types@)[j] != mime@,
            decreases self.mime_types@.len() - k,
        {
            if text::str_eq(self.mime_types[k].as_str(), mime) {
                assert(strs(self.mime_types@)[k as int] == mime@);
                return true;
            }
            k = k + 1;
        }
        false
    }
}

// ---------------------------------------------------------------------------
// The registry
// ---------------------------------------------------------------------------

/// The registry's entries after registering `e`: an entry of the same name is
/// replaced in place, otherwise `e` is appended.
pub open spec fn spec_register(entries: Seq<InfoView>, e: InfoView) -> Seq<InfoView>
    decreases entries.len(),
{
    if entries.len() == 0 {
        seq![e]
    } else if entries[0].name == e.name {
        seq![e] + entries.drop_first()
    } else {
        seq![entries[0]] + spec_register(entries.drop_first(), e)
    }
}

/// The index of the entry chosen for `mime` among `entries[i..]`, `best` being the
/// best index so far: the highest priority, the earliest among equals.
pub open spec fn choose_from(entries: Seq<InfoView>, mime: Seq<char>, i: nat, best: Option<nat>) -> Option<nat>
    decreases entries.len() - i,
{
    if i >= entries.len() {
        best
    } else if entries[i as int].mime_types.contains(mime) && (best is None || entries[i as int].priority
        > entries[best->0 as int].priority) {
        choose_from(entries, mime, i + 1, Some(i))
    } else {
        choose_from(entries, mime, i + 1, best)
    }
}

/// The index of the extractor that handles `mime`: among those that support it,
/// the one of highest priority, the earliest registered among equals.
pub open spec fn spec_choose(entries: Seq<InfoView>, mime: Seq<char>) -> Option<nat> {
    choose_from(entries, mime, 0, None)
}

/// Extractors by name, each name at most once.
pub struct DocumentExtractorRegistry {
    entries: Vec<ExtractorInfo>,
}

impl View for DocumentExtractorRegistry {
    type V = Seq<InfoView>;

    closed spec fn view(&self) -> Seq<InfoView> {
        self.entries@.map_values(|e: ExtractorInfo| e@)
    }
}

impl DocumentExtractorRegistry {
    /// An empty registry.
    pub fn new() -> (r: Self)
        ensures
            r@ == Seq::<InfoView>::empty(),
    {
        let r = DocumentExtractorRegistry { entries: Vec::new() };
        assert(r@ =~= Seq::<InfoView>::empty());
        r
    }

    /// Registers an extractor; one of the same name is replaced.
    pub fn register(&mut self, e: ExtractorInfo) -> (r: Result<(), KreuzbergError>)
        ensures
            r is Ok,
            final(self)@ == spec_register(old(self)@, e@),
    {
        let ghost old_v = self@;
        let ghost ev = e@;
        let n = self.entries.len();
        let mut i: usize = 0;
        assert(old_v.skip(0) =~= old_v);
        assert(old_v.take(0) + spec_register(old_v, ev) =~= spec_register(old_v, ev));
        while i < n
            invariant
                i <= n == self.entries@.len(),
                self@ == old_v,
                old_v == old(self)@,
                ev == e@,
                spec_register(old_v, ev) == old_v.take(i as int) + spec_register(
                    old_v.skip(i as int),
                    ev,
                ),
            decreases n - i,
        {
            let ghost rest = old_v.skip(i as int);
            assert(rest[0] == self.entries@[i as int]@);
            if text::str_eq(self.entries[i].name.as_str(), e.name.as_str()) {
                self.entries.set(i, e);
                proof {
                    assert(rest.drop_first() =~= old_v.skip(i + 1));
                    assert(self@ =~= old_v.take(i as int) + spec_register(rest, ev));
                }
                return Ok(());
            }
            proof {
                assert(rest.drop_first() =~= old_v.skip(i + 1));
                assert(old_v.take(i as int) + spec_register(rest, ev) =~= old_v.take(i + 1)
                    + spec_register(old_v.skip(i + 1), ev));
            }
            i = i + 1;
        }
        self.entries.push(e);
        proof {
            assert(old_v.skip(i as int) =~= Seq::<InfoView>::empty());
            assert(old_v.take(i as int) =~= old_v);
            assert(self@ =~= old_v + seq![ev]);
        }
        Ok(())
    }

    /// The names of the registered extractors.
    pub fn list(&self) -> (r: Vec<String>)
        ensures
            strs(r@) == self@.map_values(|e: InfoView| e.name),
    {
        let mut r: Vec<String> = Vec::new();
        let mut k: usize = 0;
        while k < self.entries.len()
            invariant
                k <= self.entries@.len(),
                strs(r@) == self@.map_values(|e: InfoView| e.name).take(k as int),
            decreases self.entries@.len() - k,
        {
            let ghost before = r@;
            let nm = self.entries[k].name.clone();
            r.push(nm);
            proof {
                let names = self@.map_values(|e: InfoView| e.name);
                assert(names[k as int] == self.entries@[k as int].name@);
                assert(strs(r@) =~= strs(before).push(nm@));
                assert(names.take(k + 1) =~= names.take(k as int).push(names[k as int]));
            }
            k = k + 1;
        }
        assert(self@.map_values(|e: InfoView| e.name).take(k as int) =~= self@.map_values(
            |e: InfoView| e.name,
        ));
        r
    }

    /// The extractor for `mime`: the highest-priority one that supports it, the
    /// earliest registered among equals; `UnsupportedFormat` when none does.
    pub fn get(&self, mime: &str) -> (r: Result<ExtractorInfo, KreuzbergError>)
        ensures
            spec_choose(self@, mime@) matches Some(k) ==> (r matches Ok(e) && e@ == self@[k as int]),
            spec_choose(self@, mime@) is None ==> (r matches Err(KreuzbergError::UnsupportedFormat(m))
                && m@ == mime@),
    {
        let mut best: Option<usize> = None;
        let mut i: usize = 0;
        while i < self.entries.len()
            invariant
                i <= self.entries@.len(),
                best matches Some(b) ==> b < i,
                spec_choose(self@, mime@) == choose_from(
                    self@,
                    mime@,
                    i as nat,
                    match best {
                        Some(b) => Some(b as nat),
                        None => None,
                    },
                ),
            decreases self.entries@.len() - i,
        {
            assert(self@[i as int] == self.entries@[i as int]@);
            if self.entries[i].supports(mime) {
                let better = match best {
                    None => true,
                    Some(b) => {
                        assert(self@[b as int] == self.entries@[b as int]@);
                        self.entries[i].priority > self.entries[b].priority
                    },
                };
                if better {
                    best = Some(i);
                }
            }
            i = i + 1;
        }
        match best {
            Some(b) => {
                assert(self@[b as int] == self.entries@[b as int]@);
                Ok(self.entries[b].duplicate())
            },
            None => Err(KreuzbergError::UnsupportedFormat(mime.to_owned())),
        }
    }

    /// Whether no extractor is registered.
    pub fn is_empty(&self) -> (r: bool)
        ensures
            r == (self@.len() == 0),
    {
        self.entries.len() == 0
    }
}

// ---------------------------------------------------------------------------
// Laws of the registry
// ---------------------------------------------------------------------------

/// No two entries share a name.
pub open spec fn names_unique(entries: Seq<InfoView>) -> bool {
    forall|i: int, j: int| 0 <= i < j < entries.len() ==> entries[i].name != entries[j].name
}

/// Whether the entry supports `mime`.
pub open spec fn handles(e: InfoView, mime: Seq<char>) -> bool {
    e.mime_types.contains(mime)
}

/// Registering `e` leaves exactly one entry under its name, `e` itself; the other
/// entries stay, in their order, and the names stay unique.
pub proof fn lemma_register_keeps(entries: Seq<InfoView>, e: InfoView)
    requires
        names_unique(entries),
    ensures
        names_unique(spec_register(entries, e)),
        spec_register(entries, e).contains(e),
        forall|j: int|
            0 <= j < spec_register(entries, e).len() && (#[trigger] spec_register(entries, e)[j]).name
                == e.name ==> spec_register(entries, e)[j] == e,
        forall|x: InfoView| #[trigger] entries.contains(x) && x.name != e.name ==> spec_register(entries, e).contains(x),
        forall|y: InfoView| #[trigger] spec_register(entries, e).contains(y) ==> y == e || entries.contains(y),
    decreases entries.len(),
{
    let r = spec_register(entries, e);
    if entries.len() == 0 {
        assert(r[0] == e);
    } else if entries[0].name == e.name {
        let rest = entries.drop_first();
        assert(r[0] == e);
        assert forall|j: int| 0 <= j < r.len() && (#[trigger] r[j]).name == e.name implies r[j] == e by {
            if j > 0 {
                assert(r[j] == entries[j]);
                assert(entries[0].name != entries[j].name);
            }
        }
        assert forall|x: InfoView| #[trigger] entries.contains(x) && x.name != e.name implies r.contains(x) by {
            let k = choose|k: int| 0 <= k < entries.len() && entries[k] == x;
            assert(k != 0);
            assert(r[k] == x);
        }
        assert forall|y: InfoView| #[trigger] r.contains(y) implies y == e || entries.contains(y) by {
            let k = choose|k: int| 0 <= k < r.len() && r[k] == y;
            if k > 0 {
                assert(entries[k] == y);
            }
        }
        assert forall|i: int, j: int| 0 <= i < j < r.len() implies r[i].name != r[j].name by {
            if i > 0 {
                assert(r[i] == entries[i] && r[j] == entries[j]);
            } else {
                assert(r[j] == entries[j]);
                assert(entries[0].name != entries[j].name);
            }
        }
    } else {
        let rest = entries.drop_first();
        let rr = spec_register(rest, e);
        assert(names_unique(rest)) by {
            assert forall|i: int, j: int| 0 <= i < j < rest.len() implies rest[i].name != rest[j].name by {
                assert(rest[i] == entries[i + 1] && rest[j] == entries[j + 1]);
            }
        }
        lemma_register_keeps(rest, e);
        assert(r == seq![entries[0]] + rr);
        assert(rr.contains(e));
        let ke = choose|k: int| 0 <= k < rr.len() && rr[k] == e;
        assert(r[ke + 1] == e);
        assert forall|j: int| 0 <= j < r.len() && (#[trigger] r[j]).name == e.name implies r[j] == e by {
            if j > 0 {
                assert(r[j] == rr[j - 1]);
            }
        }
        assert forall|x: InfoView| #[trigger] entries.contains(x) && x.name != e.name implies r.contains(x) by {
            let k = choose|k: int| 0 <= k < entries.len() && entries[k] == x;
            if k == 0 {
                assert(r[0] == x);
            } else {
                assert(rest[k - 1] == x);
                assert(rest.contains(x));
                let m = choose|m: int| 0 <= m < rr.len() && rr[m] == x;
                assert(r[m + 1] == x);
            }
        }
        assert forall|y: InfoView| #[trigger] r.contains(y) implies y == e || entries.contains(y) by {
            let k = choose|k: int| 0 <= k < r.len() && r[k] == y;
            if k == 0 {
                assert(entries[0] == y);
            } else {
                assert(rr[k - 1] == y);
                assert(rr.contains(y));
                if y != e {
                    assert(rest.contains(y));
                    let m = choose|m: int| 0 <= m < rest.len() && rest[m] == y;
                    assert(entries[m + 1] == y);
                }
            }
        }
        assert forall|i: int, j: int| 0 <= i < j < r.len() implies r[i].name != r[j].name by {
            if i > 0 {
                assert(r[i] == rr[i - 1] && r[j] == rr[j - 1]);
            } else {
                assert(r[j] == rr[j - 1]);
                assert(rr.contains(rr[j - 1]));
                if rr[j - 1] == e {
                } else {
                    assert(rest.contains(rr[j - 1]));
                    let m = choose|m: int| 0 <= m < rest.len() && rest[m] == rr[j - 1];
                    assert(entries[m + 1] == rr[j - 1]);
                }
            }
        }
    }
}

/// Registering an extractor whose name is new appends it.
pub proof fn lemma_register_new_name(entries: Seq<InfoView>, e: InfoView)
    requires
        forall|j: int| 0 <= j < entries.len() ==> (#[trigger] entries[j]).name != e.name,
    ensures
        spec_register(entries, e) == entries.push(e),
    decreases entries.len(),
{
    if entries.len() > 0 {
        let rest = entries.drop_first();
        assert forall|j: int| 0 <= j < rest.len() implies (#[trigger] rest[j]).name != e.name by {
            assert(rest[j] == entries[j + 1]);
        }
        lemma_register_new_name(rest, e);
        assert(seq![entries[0]] + rest.push(e) =~= entries.push(e));
    } else {
        assert(seq![e] =~= entries.push(e));
    }
}

/// Registering the same extractor twice is the same as registering it once.
pub proof fn lemma_register_idempotent(entries: Seq<InfoView>, e: InfoView)
    ensures
        spec_register(spec_register(entries, e), e) == spec_register(entries, e),
    decreases entries.len(),
{
    let r = spec_register(entries, e);
    if entries.len() == 0 {
        assert(r.drop_first() =~= Seq::<InfoView>::empty());
        assert(spec_register(r, e) =~= seq![e] + r.drop_first());
    } else if entries[0].name == e.name {
        assert(r[0] == e);
        assert(r.drop_first() =~= entries.drop_first());
        assert(spec_register(r, e) =~= seq![e] + r.drop_first());
    } else {
        let rest = entries.drop_first();
        lemma_register_idempotent(rest, e);
        assert(r[0] == entries[0]);
        assert(r.drop_first() =~= spec_register(rest, e));
    }
}

/// What the search for `mime` keeps: the best index so far supports it, no earlier
/// entry that supports it has a higher priority, and none before it an equal one.
pub open spec fn best_so_far(entries: Seq<InfoView>, mime: Seq<char>, i: int, best: Option<nat>) -> bool {
    match best {
        Some(b) => b < i && handles(entries[b as int], mime) && forall|j: int|
            0 <= j < i && #[trigger] handles(entries[j], mime) ==> entries[j].priority
                <= entries[b as int].priority && (entries[j].priority == entries[b as int].priority ==> b
                <= j),
        None => forall|j: int| 0 <= j < i ==> !#[trigger] handles(entries[j], mime),
    }
}

proof fn lemma_choose_from(entries: Seq<InfoView>, mime: Seq<char>, i: nat, best: Option<nat>)
    requires
        i <= entries.len(),
        best_so_far(entries, mime, i as int, best),
    ensures
        best_so_far(entries, mime, entries.len() as int, choose_from(entries, mime, i, best)),
    decreases entries.len() - i,
{
    if i < entries.len() {
        if handles(entries[i as int], mime) && (best is None || entries[i as int].priority
            > entries[best->0 as int].priority) {
            assert(best_so_far(entries, mime, i + 1int, Some(i)));
            lemma_choose_from(entries, mime, i + 1, Some(i));
        } else {
            assert(best_so_far(entries, mime, i + 1int, best));
            lemma_choose_from(entries, mime, i + 1, best);
        }
    }
}

/// The extractor chosen for `mime` supports it and has the highest priority among
/// those that do, the earliest registered among equals; none is chosen exactly
/// when no entry supports `mime`.
pub proof fn lemma_choose_is_best(entries: Seq<InfoView>, mime: Seq<char>)
    ensures
        spec_choose(entries, mime) matches Some(k) ==> k < entries.len() && handles(entries[k as int], mime)
            && forall|j: int|
            0 <= j < entries.len() && #[trigger] handles(entries[j], mime) ==> entries[j].priority
                <= entries[k as int].priority && (entries[j].priority == entries[k as int].priority ==> k
                <= j),
        spec_choose(entries, mime) is None <==> forall|j: int|
            0 <= j < entries.len() ==> !#[trigger] handles(entries[j], mime),
{
    lemma_choose_from(entries, mime, 0, None);
    if let Some(k) = spec_choose(entries, mime) {
        assert(handles(entries[k as int], mime));
    }
}

} // verus!
