use vstd::prelude::*;

verus! {

/// The documentation of one rule keyword, as Suricata lists it.
#[derive(Clone, Debug, PartialEq, Eq)]
pub struct KeywordRecord {
    pub name: String,
    pub description: String,
    pub app_layer: String,
    pub features: String,
    pub documentation: String,
}

/// A keyword, told apart by whether it takes a value: `NoOption` keywords
/// stand alone in a rule.
#[derive(Clone, Debug, PartialEq, Eq)]
pub enum Keyword {
    NoOption(KeywordRecord),
    Other(KeywordRecord),
}

/// The features text that marks a keyword taking no value.
pub open spec fn no_option_prefix() -> Seq<char> {
    seq!['N', 'o', ' ', 'o', 'p', 't', 'i', 'o', 'n']
}

/// Whether `s` starts with `prefix`.
pub fn starts_with(s: &str, prefix: &str) -> (r: bool)
    ensures
        r == (prefix@.len() <= s@.len() && s@.take(prefix@.len() as int) == prefix@),
{
    let n = prefix.unicode_len();
    let m = s.unicode_len();
    if n > m {
        return false;
    }
    let mut i: usize = 0;
    while i < n
        invariant
            n == prefix@.len(),
            m == s@.len(),
            n <= m,
            i <= n,
            s@.take(i as int) == prefix@.take(i as int),
        decreases n - i,
    {
        if s.get_char(i) != prefix.get_char(i) {
            assert(s@.take(n as int)[i as int] != prefix@[i as int]);
            return false;
        }
        assert(s@.take(i as int + 1) == s@.take(i as int).push(s@[i as int]));
        assert(prefix@.take(i as int + 1) == prefix@.take(i as int).push(prefix@[i as int]));
        i = i + 1;
    }
    assert(prefix@.take(n as int) == prefix@);
    true
}

/// The record inside a keyword.
pub open spec fn record_of(k: Keyword) -> KeywordRecord {
    match k {
        Keyword::NoOption(r) => r,
        Keyword::Other(r) => r,
    }
}

impl Keyword {
    /// The record inside the keyword.
    pub fn record(&self) -> (r: &KeywordRecord)
        ensures
            *r == record_of(*self),
    {
        match self {
            Keyword::NoOption(r) => r,
            Keyword::Other(r) => r,
        }
    }
}

impl KeywordRecord {
    /// The keyword of a record, under its name: `NoOption` where its features
    /// start with "No option", else `Other`.
    pub fn to_keyword(record: KeywordRecord) -> (r: (String, Keyword))
        ensures
            r.0@ == record.name@,
            record_of(r.1) == record,
            r.1 is NoOption <==> (no_option_prefix().len() <= record.features@.len()
                && record.features@.take(no_option_prefix().len() as int) == no_option_prefix()),
    {
        let name = record.name.clone();
        proof {
            reveal_strlit("No option");
            assert("No option"@ == no_option_prefix());
        }
        if starts_with(record.features.as_str(), "No option") {
            (name, Keyword::NoOption(record))
        } else {
            (name, Keyword::Other(record))
        }
    }
}

/// The keyword dictionary: keywords by name, at most one per name, in the
/// order they were first stored.
#[derive(Debug)]
pub struct KeywordMap {
    pub entries: Vec<(String, Keyword)>,
}

impl KeywordMap {
    /// At most one entry per name.
    pub open spec fn wf(self) -> bool {
        forall|i: int, j: int|
            0 <= i < j < self.entries@.len() ==> #[trigger] self.entries@[i].0@ != #[trigger] self.entries@[j].0@
    }

    /// The keyword stored under `name`, if any.
    pub open spec fn lookup(self, name: Seq<char>) -> Option<Keyword> {
        if exists|i: int| 0 <= i < self.entries@.len() && self.entries@[i].0@ == name {
            let i = choose|i: int| 0 <= i < self.entries@.len() && self.entries@[i].0@ == name;
            Some(self.entries@[i].1)
        } else {
            None
        }
    }

    /// Whether no name holds two keywords.
    pub fn well_formed(&self) -> (r: bool)
        ensures
            r == self.wf(),
    {
        let n = self.entries.len();
        let mut i: usize = 0;
        while i < n
            invariant
                n == self.entries@.len(),
                i <= n,
                forall|a: int, b: int| 0 <= a < b < n && a < i ==> #[trigger] self.entries@[a].0@ != #[trigger] self.entries@[b].0@,
            decreases n - i,
        {
            let mut j: usize = i + 1;
            while j < n
                invariant
                    n == self.entries@.len(),
                    i < n,
                    i < j <= n,
                    forall|a: int, b: int| 0 <= a < b < n && a < i ==> #[trigger] self.entries@[a].0@ != #[trigger] self.entries@[b].0@,
                    forall|b: int| i < b < j ==> self.entries@[i as int].0@ != #[trigger] self.entries@[b].0@,
                decreases n - j,
            {
                if self.entries[i].0 == self.entries[j].0 {
                    return false;
                }
                j = j + 1;
            }
            i = i + 1;
        }
        true
    }

    /// An empty dictionary.
    pub fn new() -> (r: KeywordMap)
        ensures
            r.wf(),
            r.entries@.len() == 0,
    {
        KeywordMap { entries: Vec::new() }
    }

    fn index_of(&self, name: &String) -> (r: Option<usize>)
        ensures
            r matches Some(i) ==> i < self.entries@.len() && self.entries@[i as int].0@ == name@,
            r is None ==> forall|i: int| 0 <= i < self.entries@.len() ==> self.entries@[i].0@ != name@,
    {
        let mut i: usize = 0;
        while i < self.entries.len()
            invariant
                i <= self.entries@.len(),
                forall|k: int| 0 <= k < i ==> self.entries@[k].0@ != name@,
            decreases self.entries@.len() - i,
        {
            if self.entries[i].0 == *name {
                return Some(i);
            }
            i = i + 1;
        }
        None
    }

    /// The keyword stored under `name`.
    pub fn get(&self, name: &String) -> (r: Option<&Keyword>)
        requires
            self.wf(),
        ensures
            r matches Some(k) ==> self.lookup(name@) == Some(*k),
            r is None ==> self.lookup(name@) is None,
    {
        match self.index_of(name) {
            Some(i) => {
                proof {
                    lemma_lookup(*self, i as int);
                }
                Some(&self.entries[i].1)
            },
            None => None,
        }
    }

    /// Stores `keyword` under `name`, replacing the one stored before.
    pub fn insert(&mut self, name: String, keyword: Keyword)
        requires
            old(self).wf(),
        ensures
            final(self).wf(),
            final(self).lookup(name@) == Some(keyword),
            forall|n: Seq<char>| n != name@ ==> final(self).lookup(n) == old(self).lookup(n),
    {
        let ghost before = *self;
        let ghost key = name@;
        let ghost idx: int;
        match self.index_of(&name) {
            Some(i) => {
                self.entries.set(i, (name, keyword));
                proof {
                    idx = i as int;
                }
            },
            None => {
                self.entries.push((name, keyword));
                proof {
                    idx = before.entries@.len() as int;
                }
            },
        }
        proof {
            assert(self.entries@[idx].0@ == key);
            lemma_lookup(*self, idx);
            assert forall|n: Seq<char>| n != key implies #[trigger] self.lookup(n) == before.lookup(n) by {
                if exists|k: int| 0 <= k < before.entries@.len() && before.entries@[k].0@ == n {
                    let k = choose|k: int| 0 <= k < before.entries@.len() && before.entries@[k].0@ == n;
                    assert(k != idx);
                    assert(self.entries@[k] == before.entries@[k]);
                    lemma_lookup(before, k);
                    lemma_lookup(*self, k);
                } else {
                    assert forall|k: int| 0 <= k < self.entries@.len() implies self.entries@[k].0@ != n by {
                        if k != idx {
                            assert(self.entries@[k] == before.entries@[k]);
                        }
                    }
                }
            }
        }
    }
}

/// The entry at index `k` is the one stored under its name.
proof fn lemma_lookup(m: KeywordMap, k: int)
    requires
        m.wf(),
        0 <= k < m.entries@.len(),
    ensures
        m.lookup(m.entries@[k].0@) == Some(m.entries@[k].1),
{
    let name = m.entries@[k].0@;
    assert(exists|j: int| 0 <= j < m.entries@.len() && m.entries@[j].0@ == name);
    let j = choose|j: int| 0 <= j < m.entries@.len() && m.entries@[j].0@ == name;
    if j != k {
        if j < k {
            assert(m.entries@[j].0@ != m.entries@[k].0@);
        } else {
            assert(m.entries@[k].0@ != m.entries@[j].0@);
        }
    }
}

} // verus!
