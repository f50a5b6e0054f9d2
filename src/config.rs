//! The catalogue of data sources and named digit mappings.
//!
//! Named entries are kept as vectors of `(name, value)` pairs; a well-formed catalogue
//! names each mapping and each category once.
use vstd::prelude::*;
use crate::text::{same_chars, same_text, text_chars};
use crate::walk::{Mapping, IDENTITY, OPTIMAL, SPIRAL, STOCK_OPT};

verus! {

broadcast use vstd::string::group_string_axioms;

/// One data source of the catalogue.
#[derive(Debug)]
pub struct Source {
    pub id: String,
    pub name: String,
    pub category: String,
    pub subcategory: String,
    pub converter: String,
    pub mapping: String,
    pub url: String,
}

/// The catalogue: named digit mappings, category titles, converter descriptions, sources.
#[derive(Debug)]
pub struct Config {
    pub mappings: Vec<(String, Vec<u8>)>,
    pub categories: Vec<(String, String)>,
    pub converters: Vec<(String, String)>,
    pub sources: Vec<Source>,
}

/// Settings read from the environment.
#[derive(Debug, Default)]
pub struct Secrets {
    pub yahoo_api_key: Option<String>,
    pub data_dir: String,
    pub port: u16,
}

/// The metadata of a walk, without its digits.
#[derive(Debug)]
pub struct WalkMeta {
    pub id: String,
    pub name: String,
    pub category: String,
    pub subcategory: String,
    pub mapping: String,
    pub url: String,
}

/// Whether no two entries of `entries` share a name.
pub open spec fn names_unique<V>(entries: Seq<(String, V)>) -> bool {
    forall|i: int, j: int|
        0 <= i < j < entries.len() ==> #[trigger] entries[i].0@ != #[trigger] entries[j].0@
}

/// The index of the first entry of `entries` called `name`, if any.
pub open spec fn first_named<V>(entries: Seq<(String, V)>, name: Seq<char>) -> Option<int> {
    if exists|j: int| 0 <= j < entries.len() && entries[j].0@ == name {
        let j = choose|j: int|
            0 <= j < entries.len() && entries[j].0@ == name && forall|k: int|
                0 <= k < j ==> entries[k].0@ != name;
        Some(j)
    } else {
        None
    }
}

/// The mapping built from a stored list: its first twelve entries; a digit the list does
/// not reach acts as itself.
pub open spec fn mapping_from_list(v: Seq<u8>) -> Seq<u8> {
    Seq::new(12, |i: int| if i < v.len() { v[i] } else { i as u8 })
}

/// The sources of `sources` in category `category`, in order.
pub open spec fn in_category(sources: Seq<Source>, category: Seq<char>) -> Seq<Source>
    decreases sources.len(),
{
    if sources.len() == 0 {
        seq![]
    } else {
        let rest = in_category(sources.drop_last(), category);
        if sources.last().category@ == category {
            rest.push(sources.last())
        } else {
            rest
        }
    }
}

/// The index of the first source of `sources` whose id is `id`, if any.
pub open spec fn first_with_id(sources: Seq<Source>, id: Seq<char>) -> Option<int> {
    if exists|j: int| 0 <= j < sources.len() && sources[j].id@ == id {
        let j = choose|j: int|
            0 <= j < sources.len() && sources[j].id@ == id && forall|k: int|
                0 <= k < j ==> sources[k].id@ != id;
        Some(j)
    } else {
        None
    }
}

impl Config {
    /// Each mapping and each category is named once.
    pub open spec fn wf(&self) -> bool {
        names_unique(self.mappings@) && names_unique(self.categories@)
    }

    /// The mapping called `name`: its stored list read as `mapping_from_list` says, or the
    /// identity when there is none of that name.
    pub fn get_mapping(&self, name: &str) -> (m: Mapping)
        ensures
            m@ == match first_named(self.mappings@, name@) {
                Some(j) => mapping_from_list(self.mappings@[j].1@),
                None => IDENTITY@,
            },
    {
        let mut j: usize = 0;
        while j < self.mappings.len()
            invariant
                j <= self.mappings@.len(),
                forall|k: int| 0 <= k < j ==> self.mappings@[k].0@ != name@,
            decreases self.mappings@.len() - j,
        {
            if same_text(self.mappings[j].0.as_str(), name) {
                let v = &self.mappings[j].1;
                let mut arr: Mapping = IDENTITY;
                let n: usize = if v.len() < 12 { v.len() } else { 12 };
                let mut i: usize = 0;
                while i < n
                    invariant
                        n <= 12,
                        n <= v@.len(),
                        n == (if v@.len() < 12 { v@.len() } else { 12 }),
                        i <= n,
                        forall|t: int| 0 <= t < i ==> arr@[t] == v@[t],
                        forall|t: int| n <= t < 12 ==> arr@[t] == t,
                    decreases n - i,
                {
                    arr[i] = v[i];
                    i = i + 1;
                }
                proof {
                    let jj = j as int;
                    assert(first_named(self.mappings@, name@) == Some(jj)) by {
                        let c = choose|t: int|
                            0 <= t < self.mappings@.len() && self.mappings@[t].0@ == name@
                                && forall|k: int| 0 <= k < t ==> self.mappings@[k].0@ != name@;
                        if c < jj {
                        } else if c > jj {
                        }
                    }
                    assert(arr@ =~= mapping_from_list(v@));
                }
                return arr;
            }
            j = j + 1;
        }
        IDENTITY
    }

    /// The first source whose id is `id`.
    pub fn get_source(&self, id: &str) -> (r: Option<&Source>)
        ensures
            match first_with_id(self.sources@, id@) {
                Some(j) => r == Some(&self.sources@[j]),
                None => r is None,
            },
    {
        let mut j: usize = 0;
        while j < self.sources.len()
            invariant
                j <= self.sources@.len(),
                forall|k: int| 0 <= k < j ==> self.sources@[k].id@ != id@,
            decreases self.sources@.len() - j,
        {
            if same_text(self.sources[j].id.as_str(), id) {
                proof {
                    let jj = j as int;
                    assert(first_with_id(self.sources@, id@) == Some(jj)) by {
                        let c = choose|t: int|
                            0 <= t < self.sources@.len() && self.sources@[t].id@ == id@
                                && forall|k: int| 0 <= k < t ==> self.sources@[k].id@ != id@;
                        if c < jj {
                        } else if c > jj {
                        }
                    }
                }
                return Some(&self.sources[j]);
            }
            j = j + 1;
        }
        None
    }

    /// The sources in category `category`, in catalogue order.
    pub fn sources_by_category(&self, category: &str) -> (r: Vec<&Source>)
        ensures
            r@.len() == in_category(self.sources@, category@).len(),
            forall|i: int| 0 <= i < r@.len() ==> *r@[i] == in_category(self.sources@, category@)[i],
    {
        let mut r: Vec<&Source> = Vec::new();
        let mut j: usize = 0;
        while j < self.sources.len()
            invariant
                j <= self.sources@.len(),
                r@.len() == in_category(self.sources@.take(j as int), category@).len(),
                forall|i: int|
                    0 <= i < r@.len() ==> *r@[i] == in_category(self.sources@.take(j as int), category@)[i],
            decreases self.sources@.len() - j,
        {
            proof {
                assert(self.sources@.take(j + 1).drop_last() =~= self.sources@.take(j as int));
            }
            if same_text(self.sources[j].category.as_str(), category) {
                r.push(&self.sources[j]);
            }
            j = j + 1;
        }
        assert(self.sources@.take(self.sources@.len() as int) =~= self.sources@);
        r
    }
}

impl From<&Source> for WalkMeta {
    fn from(s: &Source) -> (m: WalkMeta) {
        WalkMeta {
            id: s.id.clone(),
            name: s.name.clone(),
            category: s.category.clone(),
            subcategory: s.subcategory.clone(),
            mapping: s.mapping.clone(),
            url: s.url.clone(),
        }
    }
}

impl vstd::std_specs::convert::FromSpecImpl<&Source> for WalkMeta {
    open spec fn obeys_from_spec() -> bool {
        true
    }

    open spec fn from_spec(s: &Source) -> WalkMeta {
        WalkMeta {
            id: s.id,
            name: s.name,
            category: s.category,
            subcategory: s.subcategory,
            mapping: s.mapping,
            url: s.url,
        }
    }
}

/// The part of `url` after its last `/`, or all of it when it holds none.
pub open spec fn last_segment(url: Seq<char>) -> Seq<char>
    decreases url.len(),
{
    if url.len() == 0 {
        url
    } else if url.last() == '/' {
        seq![]
    } else {
        last_segment(url.drop_last()).push(url.last())
    }
}

/// The accession of a sequence record from its URL: the last path segment
/// (`https://www.ncbi.nlm.nih.gov/nuccore/NC_045512.2` gives `NC_045512.2`).
pub fn extract_ncbi_accession(url: &str) -> (r: String)
    ensures
        r@ == last_segment(url@),
{
    let c = text_chars(url);
    let n = c.len();
    let mut start: usize = n;
    while start > 0 && c[start - 1] != '/'
        invariant
            c@ == url@,
            n == url@.len(),
            start <= n,
            forall|k: int| start <= k < n ==> url@[k] != '/',
        decreases start,
    {
        start = start - 1;
    }
    proof {
        lemma_last_segment_from(url@, start as int);
    }
    url.substring_char(start, n).to_owned()
}

proof fn lemma_last_segment_from(url: Seq<char>, start: int)
    requires
        0 <= start <= url.len(),
        forall|k: int| start <= k < url.len() ==> url[k] != '/',
        start == 0 || url[start - 1] == '/',
    ensures
        last_segment(url) == url.subrange(start, url.len() as int),
    decreases url.len(),
{
    if url.len() > start {
        let t = url.drop_last();
        lemma_last_segment_from(t, start);
        assert(url.subrange(start, url.len() as int) =~= t.subrange(start, t.len() as int).push(url.last()));
    } else if url.len() > 0 {
        assert(url.subrange(start, url.len() as int) =~= seq![]);
    }
}

/// Whether `s` holds exactly the given fields.
pub open spec fn source_is(
    s: Source,
    id: Seq<char>,
    name: Seq<char>,
    category: Seq<char>,
    subcategory: Seq<char>,
    converter: Seq<char>,
    mapping: Seq<char>,
    url: Seq<char>,
) -> bool {
    &&& s.id@ == id
    &&& s.name@ == name
    &&& s.category@ == category
    &&& s.subcategory@ == subcategory
    &&& s.converter@ == converter
    &&& s.mapping@ == mapping
    &&& s.url@ == url
}

fn make_source(
    id: &str,
    name: &str,
    category: &str,
    subcategory: &str,
    converter: &str,
    mapping: &str,
    url: &str,
) -> (s: Source)
    ensures
        source_is(s, id@, name@, category@, subcategory@, converter@, mapping@, url@),
{
    Source {
        id: String::from_str(id),
        name: String::from_str(name),
        category: String::from_str(category),
        subcategory: String::from_str(subcategory),
        converter: String::from_str(converter),
        mapping: String::from_str(mapping),
        url: String::from_str(url),
    }
}

/// The catalogue used when no configuration file exists: the four preset mappings, the
/// math category, and the pi, e and dragon-curve sources.
pub fn default_config() -> (c: Config)
    ensures
        c.mappings@.len() == 4,
        c.mappings@[0].0@ == "Identity"@ && c.mappings@[0].1@ == IDENTITY@,
        c.mappings@[1].0@ == "Optimal"@ && c.mappings@[1].1@ == OPTIMAL@,
        c.mappings@[2].0@ == "Spiral"@ && c.mappings@[2].1@ == SPIRAL@,
        c.mappings@[3].0@ == "Stock-opt"@ && c.mappings@[3].1@ == STOCK_OPT@,
        c.categories@.len() == 1,
        c.categories@[0].0@ == "math"@ && c.categories@[0].1@ == "Math"@,
        c.converters@.len() == 0,
        c.sources@.len() == 3,
        source_is(c.sources@[0], "pi"@, "Pi"@, "math"@, "Constants"@, "math.constant.pi"@,
            "Identity"@, "computed://mpmath"@),
        source_is(c.sources@[1], "e"@, "Euler's Number (e)"@, "math"@, "Constants"@,
            "math.constant.e"@, "Identity"@, "computed://mpmath"@),
        source_is(c.sources@[2], "dragon_curve"@, "Dragon Curve"@, "math"@, "Fractals"@,
            "math.fractal.dragon"@, "Identity"@, "computed://lsystem"@),
        c.wf(),
{
    proof {
        reveal_strlit("Identity");
        reveal_strlit("Optimal");
        reveal_strlit("Spiral");
        reveal_strlit("Stock-opt");
        assert("Identity"@.len() == 8 && "Optimal"@.len() == 7);
        assert("Spiral"@.len() == 6 && "Stock-opt"@.len() == 9);
    }
    let mut mappings: Vec<(String, Vec<u8>)> = Vec::new();
    mappings.push((String::from_str("Identity"), vec![0, 1, 2, 3, 4, 5, 6, 7, 8, 9, 10, 11]));
    mappings.push((String::from_str("Optimal"), vec![0, 1, 2, 3, 4, 5, 6, 7, 10, 9, 8, 11]));
    mappings.push((String::from_str("Spiral"), vec![0, 2, 4, 6, 8, 10, 1, 3, 5, 7, 9, 11]));
    mappings.push((String::from_str("Stock-opt"), vec![1, 0, 2, 4, 10, 5, 6, 9, 8, 7, 3, 11]));
    let mut categories: Vec<(String, String)> = Vec::new();
    categories.push((String::from_str("math"), String::from_str("Math")));
    let mut sources: Vec<Source> = Vec::new();
    sources.push(
        make_source(
            "pi",
            "Pi",
            "math",
            "Constants",
            "math.constant.pi",
            "Identity",
            "computed://mpmath",
        ),
    );
    sources.push(
        make_source(
            "e",
            "Euler's Number (e)",
            "math",
            "Constants",
            "math.constant.e",
            "Identity",
            "computed://mpmath",
        ),
    );
    sources.push(
        make_source(
            "dragon_curve",
            "Dragon Curve",
            "math",
            "Fractals",
            "math.fractal.dragon",
            "Identity",
            "computed://lsystem",
        ),
    );
    Config { mappings, categories, converters: Vec::new(), sources }
}

/// Where a source's digits come from, by its converter string.
#[derive(Clone, Copy, Debug, PartialEq, Eq, Structural)]
pub enum SourceKind {
    Math,
    Dna,
    Audio,
    Cosmos,
    Finance,
}

/// The kind a converter string names: any `math.` prefix is computed; `dna`, `audio`,
/// `cosmos` and `finance` are loaded from raw files; anything else is unknown.
pub open spec fn kind_of_converter(c: Seq<char>) -> Option<SourceKind> {
    if c.len() >= 5 && c.take(5) == "math."@ {
        Some(SourceKind::Math)
    } else if c == "dna"@ {
        Some(SourceKind::Dna)
    } else if c == "audio"@ {
        Some(SourceKind::Audio)
    } else if c == "cosmos"@ {
        Some(SourceKind::Cosmos)
    } else if c == "finance"@ {
        Some(SourceKind::Finance)
    } else {
        None
    }
}

/// The kind of source a converter string names.
pub fn source_kind(converter: &str) -> (k: Option<SourceKind>)
    ensures
        k == kind_of_converter(converter@),
{
    let c = text_chars(converter);
    let prefix = text_chars("math.");
    proof {
        reveal_strlit("math.");
    }
    if c.len() >= 5 {
        let mut head: Vec<char> = Vec::new();
        let mut i: usize = 0;
        while i < 5
            invariant
                c@ == converter@,
                c@.len() >= 5,
                i <= 5,
                head@ == c@.take(i as int),
            decreases 5 - i,
        {
            head.push(c[i]);
            i = i + 1;
            assert(head@ =~= c@.take(i as int));
        }
        if same_chars(&head, &prefix) {
            return Some(SourceKind::Math);
        }
    }
    if same_text(converter, "dna") {
        Some(SourceKind::Dna)
    } else if same_text(converter, "audio") {
        Some(SourceKind::Audio)
    } else if same_text(converter, "cosmos") {
        Some(SourceKind::Cosmos)
    } else if same_text(converter, "finance") {
        Some(SourceKind::Finance)
    } else {
        None
    }
}

} // verus!
