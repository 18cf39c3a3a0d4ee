//! Key-value configuration: `key=value` lines parsed into a mapping whose
//! keys are lowercased and where the last occurrence of a key wins.

use vstd::prelude::*;
use vstd::pervasive::VecAdditionalExecFns;
use vstd::string::StrSliceExecFns;

verus! {

/// What `str::to_lowercase` returns for a given sequence of characters.
pub uninterp spec fn lower_of(s: Seq<char>) -> Seq<char>;

/// Relies on `str::to_lowercase`: the lowercase equivalent of the string,
/// a function of its characters alone.
#[verifier::external_body]
fn lowercase(s: &str) -> (r: String)
    ensures
        r@ == lower_of(s@),
{
    s.to_lowercase()
}

/// The index of the first `'='` in `s`, or `s.len()` when there is none.
pub open spec fn split_pos(s: Seq<char>) -> int
    decreases s.len(),
{
    if s.len() == 0 {
        0
    } else if s[0] == '=' {
        0
    } else {
        1 + split_pos(s.skip(1))
    }
}

proof fn lemma_split_pos(s: Seq<char>)
    ensures
        0 <= split_pos(s) <= s.len(),
        split_pos(s) < s.len() ==> s[split_pos(s)] == '=',
        forall|j: int| 0 <= j < split_pos(s) ==> s[j] != '=',
    decreases s.len(),
{
    if s.len() == 0 {
    } else if s[0] == '=' {
    } else {
        lemma_split_pos(s.skip(1));
        assert forall|j: int| 0 <= j < split_pos(s) implies s[j] != '=' by {
            if j > 0 {
                assert(s.skip(1)[j - 1] == s[j]);
            }
        }
        if split_pos(s) < s.len() {
            assert(s.skip(1)[split_pos(s) - 1] == s[split_pos(s)]);
        }
    }
}

proof fn lemma_split_pos_is(s: Seq<char>, i: int)
    requires
        0 <= i <= s.len(),
        forall|j: int| 0 <= j < i ==> s[j] != '=',
        i < s.len() ==> s[i] == '=',
    ensures
        split_pos(s) == i,
    decreases s.len(),
{
    if s.len() == 0 {
    } else if s[0] == '=' {
        assert(i == 0);
    } else {
        assert(i >= 1);
        assert forall|j: int| 0 <= j < i - 1 implies s.skip(1)[j] != '=' by {
            assert(s.skip(1)[j] == s[j + 1]);
        }
        if i - 1 < s.skip(1).len() {
            assert(s.skip(1)[i - 1] == s[i]);
        }
        lemma_split_pos_is(s.skip(1), i - 1);
    }
}

/// How one configuration line is read: `None` when the line holds no `'='`;
/// otherwise the lowercased text before the first `'='` paired with the raw,
/// untrimmed text after it.
pub open spec fn parse_line_spec(line: Seq<char>) -> Option<(Seq<char>, Seq<char>)> {
    if split_pos(line) == line.len() {
        None
    } else {
        Some((lower_of(line.take(split_pos(line))), line.skip(split_pos(line) + 1)))
    }
}

/// The index of the first `'='` character of `line`, or its length in
/// characters when it has none.
fn find_eq(line: &str) -> (r: usize)
    ensures
        r as int == split_pos(line@),
{
    let n = line.unicode_len();
    let mut i: usize = 0;
    while i < n
        invariant
            i <= n,
            n == line@.len(),
            forall|j: int| 0 <= j < i ==> line@[j] != '=',
        decreases n - i,
    {
        if line.get_char(i) == '=' {
            proof {
                lemma_split_pos_is(line@, i as int);
            }
            return i;
        }
        i = i + 1;
    }
    proof {
        lemma_split_pos_is(line@, n as int);
    }
    n
}

/// Splits a configuration line at its first `'='`: the lowercased key and the
/// raw value, or `None` for a line without `'='`.
pub fn parse_line(line: &str) -> (r: Option<(String, String)>)
    ensures
        match r {
            Some(kv) => parse_line_spec(line@) == Some((kv.0@, kv.1@)),
            None => parse_line_spec(line@) is None,
        },
{
    let n = line.unicode_len();
    let p = find_eq(line);
    proof {
        lemma_split_pos(line@);
    }
    if p == n {
        None
    } else {
        let key = lowercase(line.substring_char(0, p));
        let value = line.substring_char(p + 1, n).to_owned();
        proof {
            assert(line@.take(split_pos(line@)) =~= line@.subrange(0, p as int));
            assert(line@.skip(split_pos(line@) + 1) =~= line@.subrange(
                p as int + 1,
                n as int,
            ));
        }
        Some((key, value))
    }
}

/// The mapping described by a list of key-value entries: later entries
/// overwrite earlier ones with the same key.
spec fn map_of(s: Seq<(String, String)>) -> Map<Seq<char>, Seq<char>>
    decreases s.len(),
{
    if s.len() == 0 {
        Map::empty()
    } else {
        map_of(s.drop_last()).insert(s.last().0@, s.last().1@)
    }
}

/// No two entries share a key.
spec fn unique_keys(s: Seq<(String, String)>) -> bool {
    forall|i: int, j: int| 0 <= i < j < s.len() ==> s[i].0@ != s[j].0@
}

proof fn lemma_map_of_contains(s: Seq<(String, String)>, k: Seq<char>)
    ensures
        map_of(s).contains_key(k) <==> exists|i: int| 0 <= i < s.len() && s[i].0@ == k,
    decreases s.len(),
{
    if s.len() == 0 {
    } else {
        lemma_map_of_contains(s.drop_last(), k);
        if map_of(s).contains_key(k) {
            if s.last().0@ != k {
                let i = choose|i: int| 0 <= i < s.drop_last().len() && s.drop_last()[i].0@ == k;
                assert(s[i].0@ == k);
            } else {
                assert(s[s.len() - 1].0@ == k);
            }
        }
        if exists|i: int| 0 <= i < s.len() && s[i].0@ == k {
            let i = choose|i: int| 0 <= i < s.len() && s[i].0@ == k;
            if i < s.len() - 1 {
                assert(s.drop_last()[i].0@ == k);
            }
        }
    }
}

proof fn lemma_map_of_index(s: Seq<(String, String)>, i: int)
    requires
        unique_keys(s),
        0 <= i < s.len(),
    ensures
        map_of(s).contains_key(s[i].0@),
        map_of(s)[s[i].0@] == s[i].1@,
    decreases s.len(),
{
    if i == s.len() - 1 {
    } else {
        assert(s.drop_last()[i] == s[i]);
        lemma_map_of_index(s.drop_last(), i);
        assert(s[i].0@ != s.last().0@);
    }
}

proof fn lemma_map_of_update(s: Seq<(String, String)>, i: int, e: (String, String))
    requires
        unique_keys(s),
        0 <= i < s.len(),
        e.0@ == s[i].0@,
    ensures
        map_of(s.update(i, e)) =~= map_of(s).insert(e.0@, e.1@),
    decreases s.len(),
{
    let t = s.update(i, e);
    if i == s.len() - 1 {
        assert(t.drop_last() =~= s.drop_last());
        assert(t.last() == e);
    } else {
        assert(t.last() == s.last());
        assert(t.drop_last() =~= s.drop_last().update(i, e));
        assert(s.drop_last()[i] == s[i]);
        lemma_map_of_update(s.drop_last(), i, e);
        assert(s[i].0@ != s.last().0@);
        assert(map_of(t) =~= map_of(s.drop_last()).insert(e.0@, e.1@).insert(
            s.last().0@,
            s.last().1@,
        ));
    }
}

proof fn lemma_map_of_len(s: Seq<(String, String)>)
    requires
        unique_keys(s),
    ensures
        map_of(s).dom().finite(),
        map_of(s).len() == s.len(),
    decreases s.len(),
{
    broadcast use vstd::set::axiom_set_empty_len, vstd::set::axiom_set_insert_len, vstd::set::axiom_set_insert_finite;

    if s.len() == 0 {
        assert(map_of(s).dom() =~= Set::<Seq<char>>::empty());
    } else {
        lemma_map_of_len(s.drop_last());
        lemma_map_of_contains(s.drop_last(), s.last().0@);
        assert(forall|i: int|
            0 <= i < s.drop_last().len() ==> s.drop_last()[i].0@ != s.last().0@);
        assert(!map_of(s.drop_last()).contains_key(s.last().0@));
        assert(map_of(s).dom() =~= map_of(s.drop_last()).dom().insert(s.last().0@));
    }
}

/// A configuration: a mapping from lowercase keys to raw values, built from
/// `key=value` lines. Keys are unique; a later insertion of an existing key
/// replaces its value.
pub struct Config {
    entries: Vec<(String, String)>,
}

impl View for Config {
    type V = Map<Seq<char>, Seq<char>>;

    closed spec fn view(&self) -> Map<Seq<char>, Seq<char>> {
        map_of(self.entries@)
    }
}

impl Config {
    #[verifier::type_invariant]
    spec fn wf(self) -> bool {
        unique_keys(self.entries@)
    }

    /// An empty configuration.
    pub fn new() -> (r: Config)
        ensures
            r@ == Map::<Seq<char>, Seq<char>>::empty(),
    {
        Config { entries: Vec::new() }
    }

    /// Inserts a key-value pair; an existing entry with the same key is
    /// overwritten.
    pub fn insert(&mut self, key: String, value: String)
        ensures
            final(self)@ == old(self)@.insert(key@, value@),
    {
        proof {
            use_type_invariant(&*self);
        }
        let mut entries: Vec<(String, String)> = Vec::new();
        core::mem::swap(&mut entries, &mut self.entries);
        let ghost s = entries@;
        let n = entries.len();
        let mut i: usize = 0;
        while i < n
            invariant
                n == s.len(),
                entries@ == s,
                i <= n,
                unique_keys(s),
                map_of(s) == old(self)@,
                forall|j: int| 0 <= j < i ==> s[j].0@ != key@,
            decreases n - i,
        {
            if str_eq(entries[i].0.as_str(), key.as_str()) {
                let ghost e = (key, value);
                proof {
                    assert(e.0@ == key@ && e.1@ == value@);
                    lemma_map_of_update(s, i as int, e);
                    assert(unique_keys(s.update(i as int, e)));
                    assert(map_of(s.update(i as int, e)) == map_of(s).insert(key@, value@));
                }
                entries.set(i, (key, value));
                proof {
                    assert(entries@ == s.update(i as int, e));
                }
                self.entries = entries;
                return;
            }
            i = i + 1;
        }
        let ghost e = (key, value);
        proof {
            assert(e.0@ == key@ && e.1@ == value@);
            lemma_map_of_contains(s, key@);
            assert(s.push(e).drop_last() =~= s);
            assert(unique_keys(s.push(e)));
            assert(map_of(s.push(e)) == map_of(s).insert(key@, value@));
        }
        entries.push((key, value));
        proof {
            assert(entries@ == s.push(e));
        }
        self.entries = entries;
    }

    /// Looks a key up: the value stored under exactly this key, if any.
    pub fn get<'a>(&'a self, key: &str) -> (r: Option<&'a String>)
        ensures
            match r {
                Some(v) => self@.contains_key(key@) && v@ == self@[key@],
                None => !self@.contains_key(key@),
            },
    {
        proof {
            use_type_invariant(self);
        }
        let n = self.entries.len();
        let mut i: usize = 0;
        while i < n
            invariant
                n == self.entries@.len(),
                i <= n,
                unique_keys(self.entries@),
                forall|j: int| 0 <= j < i ==> self.entries@[j].0@ != key@,
            decreases n - i,
        {
            if str_eq(self.entries[i].0.as_str(), key) {
                proof {
                    lemma_map_of_index(self.entries@, i as int);
                }
                return Some(&self.entries[i].1);
            }
            i = i + 1;
        }
        proof {
            lemma_map_of_contains(self.entries@, key@);
        }
        None
    }

    /// The number of keys in the configuration.
    pub fn len(&self) -> (r: usize)
        ensures
            r == self@.len(),
    {
        proof {
            use_type_invariant(self);
            lemma_map_of_len(self.entries@);
        }
        self.entries.len()
    }

    /// All keys of the configuration, each exactly once.
    pub fn keys(&self) -> (r: Vec<String>)
        ensures
            r@.len() == self@.len(),
            forall|i: int, j: int| 0 <= i < j < r@.len() ==> r@[i]@ != r@[j]@,
            forall|i: int| 0 <= i < r@.len() ==> self@.contains_key(#[trigger] r@[i]@),
            forall|k: Seq<char>|
                self@.contains_key(k) ==> exists|i: int| 0 <= i < r@.len() && r@[i]@ == k,
    {
        proof {
            use_type_invariant(self);
            lemma_map_of_len(self.entries@);
        }
        let n = self.entries.len();
        let mut r: Vec<String> = Vec::new();
        let mut i: usize = 0;
        while i < n
            invariant
                n == self.entries@.len(),
                i <= n,
                unique_keys(self.entries@),
                r@.len() == i,
                forall|j: int| 0 <= j < i ==> r@[j]@ == self.entries@[j].0@,
            decreases n - i,
        {
            r.push(self.entries[i].0.clone());
            i = i + 1;
        }
        proof {
            assert forall|i: int| 0 <= i < r@.len() implies self@.contains_key(
                #[trigger] r@[i]@,
            ) by {
                lemma_map_of_index(self.entries@, i);
            }
            assert forall|k: Seq<char>| self@.contains_key(k) implies exists|i: int|
                0 <= i < r@.len() && r@[i]@ == k by {
                lemma_map_of_contains(self.entries@, k);
                let w = choose|w: int| 0 <= w < self.entries@.len() && self.entries@[w].0@ == k;
                assert(r@[w]@ == k);
            }
        }
        r
    }
}

/// The configuration described by a sequence of lines: each line with an
/// `'='` contributes its lowercased key and raw value, later lines
/// overwriting earlier ones; lines without `'='` contribute nothing.
pub open spec fn config_of_lines(lines: Seq<Seq<char>>) -> Map<Seq<char>, Seq<char>>
    decreases lines.len(),
{
    if lines.len() == 0 {
        Map::empty()
    } else {
        let m = config_of_lines(lines.drop_last());
        match parse_line_spec(lines.last()) {
            Some(kv) => m.insert(kv.0, kv.1),
            None => m,
        }
    }
}

/// Builds a configuration from the lines of a configuration file: each
/// `key=value` line is inserted with its key lowercased, the first `'='`
/// being the delimiter; lines without `'='` are skipped.
pub fn load_config(lines: &Vec<String>) -> (r: Config)
    ensures
        r@ == config_of_lines(lines.deep_view()),
{
    let ghost all = lines.deep_view();
    let mut cfg = Config::new();
    let n = lines.len();
    let mut i: usize = 0;
    proof {
        assert(all.take(0) =~= Seq::<Seq<char>>::empty());
    }
    while i < n
        invariant
            n == lines@.len(),
            all == lines.deep_view(),
            i <= n,
            cfg@ == config_of_lines(all.take(i as int)),
        decreases n - i,
    {
        proof {
            assert(all[i as int] == lines@[i as int]@);
            assert(all.take(i as int + 1).drop_last() =~= all.take(i as int));
            assert(all.take(i as int + 1).last() == all[i as int]);
        }
        match parse_line(lines[i].as_str()) {
            Some(kv) => {
                let (k, v) = kv;
                cfg.insert(k, v);
                proof {
                    assert(cfg@ == config_of_lines(all.take(i as int + 1)));
                }
            },
            None => {
                proof {
                    assert(config_of_lines(all.take(i as int + 1)) == config_of_lines(
                        all.take(i as int),
                    ));
                }
            },
        }
        i = i + 1;
    }
    proof {
        assert(all.take(n as int) =~= all);
    }
    cfg
}

/// For every well-formed `key=value` line, a configuration built from lines
/// ending with it maps the lowercased key to the exact, untrimmed value after
/// the first `'='` — whatever any earlier line said, so a duplicate key is
/// overwritten by its last occurrence.
pub proof fn lemma_last_occurrence_wins(lines: Seq<Seq<char>>, line: Seq<char>)
    requires
        parse_line_spec(line) is Some,
    ensures
        config_of_lines(lines.push(line)).contains_key(parse_line_spec(line).unwrap().0),
        config_of_lines(lines.push(line))[parse_line_spec(line).unwrap().0]
            == parse_line_spec(line).unwrap().1,
{
    assert(lines.push(line).drop_last() =~= lines);
    assert(lines.push(line).last() == line);
}

/// A line without `'='` is dropped: it leaves the configuration built from
/// the lines before it unchanged.
pub proof fn lemma_line_without_eq_ignored(lines: Seq<Seq<char>>, line: Seq<char>)
    requires
        forall|j: int| 0 <= j < line.len() ==> line[j] != '=',
    ensures
        config_of_lines(lines.push(line)) == config_of_lines(lines),
{
    lemma_split_pos_is(line, line.len() as int);
    assert(parse_line_spec(line) is None);
    assert(lines.push(line).drop_last() =~= lines);
    assert(lines.push(line).last() == line);
}

/// A well-formed line whose key no later line redefines decides that key: the
/// configuration of the whole sequence maps the line's lowercased key to the
/// line's exact value.
pub proof fn lemma_wellformed_line_maps_key(lines: Seq<Seq<char>>, i: int)
    requires
        0 <= i < lines.len(),
        parse_line_spec(lines[i]) is Some,
        forall|j: int|
            i < j < lines.len() ==> match parse_line_spec(#[trigger] lines[j]) {
                Some(kv) => kv.0 != parse_line_spec(lines[i]).unwrap().0,
                None => true,
            },
    ensures
        config_of_lines(lines).contains_key(parse_line_spec(lines[i]).unwrap().0),
        config_of_lines(lines)[parse_line_spec(lines[i]).unwrap().0] == parse_line_spec(
            lines[i],
        ).unwrap().1,
    decreases lines.len(),
{
    let k = parse_line_spec(lines[i]).unwrap().0;
    if i == lines.len() - 1 {
    } else {
        assert(lines.drop_last()[i] == lines[i]);
        assert(forall|j: int|
            i < j < lines.drop_last().len() ==> lines.drop_last()[j] == lines[j]);
        lemma_wellformed_line_maps_key(lines.drop_last(), i);
        match parse_line_spec(lines.last()) {
            Some(kv) => {
                assert(lines[lines.len() - 1] == lines.last());
                assert(kv.0 != k);
            },
            None => {},
        }
    }
}

/// Whether two string slices hold the same characters.
fn str_eq(a: &str, b: &str) -> (r: bool)
    ensures
        r == (a@ == b@),
{
    let na = a.unicode_len();
    let nb = b.unicode_len();
    if na != nb {
        return false;
    }
    let mut i: usize = 0;
    while i < na
        invariant
            na == a@.len(),
            nb == b@.len(),
            na == nb,
            i <= na,
            forall|j: int| 0 <= j < i ==> a@[j] == b@[j],
        decreases na - i,
    {
        if a.get_char(i) != b.get_char(i) {
            return false;
        }
        i = i + 1;
    }
    proof {
        assert(a@ =~= b@);
    }
    true
}

} // verus!
