//! The `KEY=VALUE` text of a release file.
//!
//! A text is cut into lines at every line feed. A line with a `=` gives one
//! entry: what stands before the first `=` is the key, everything after it the
//! value, each without the double quotes around it. A line without `=` gives
//! nothing. Of two lines with one key the later one counts.

use vstd::prelude::*;
use vstd::hash_map::StringHashMap;
use crate::text::{
    chars_of, find, find_char, join, lemma_find, lemma_find_is, lemma_split_join, pieces,
    ranges_within, split, split_ranges, str_eq, trim, trim_range,
};

verus! {

/// Whether a line gives an entry: whether it holds a `=`.
pub open spec fn has_entry(line: Seq<char>) -> bool {
    0 <= find(line, '=') < line.len()
}

/// The key of a line: what stands before its first `=`, without the quotes
/// around it.
pub open spec fn key_of(line: Seq<char>) -> Seq<char> {
    trim(line.take(find(line, '=')), '"')
}

/// The value of a line: what stands after its first `=`, without the quotes
/// around it.
pub open spec fn value_of(line: Seq<char>) -> Seq<char> {
    trim(line.skip(find(line, '=') + 1), '"')
}

/// The key and the value that one line gives, if it gives any.
pub open spec fn parse_line(line: Seq<char>) -> Option<(Seq<char>, Seq<char>)> {
    if has_entry(line) {
        Some((key_of(line), value_of(line)))
    } else {
        None
    }
}

/// The entries that a sequence of lines gives, the later line winning.
pub open spec fn entries(lines: Seq<Seq<char>>) -> Map<Seq<char>, Seq<char>>
    decreases lines.len(),
{
    if lines.len() == 0 {
        Map::empty()
    } else {
        let before = entries(lines.drop_last());
        match parse_line(lines.last()) {
            Some((k, v)) => before.insert(k, v),
            None => before,
        }
    }
}

/// The entries that a whole text gives.
pub open spec fn parse_text(text: Seq<char>) -> Map<Seq<char>, Seq<char>> {
    entries(split(text, '\n'))
}

/// The keys of the lines that give an entry, in the order of the lines.
pub open spec fn line_keys(lines: Seq<Seq<char>>) -> Seq<Seq<char>>
    decreases lines.len(),
{
    if lines.len() == 0 {
        Seq::empty()
    } else {
        let before = line_keys(lines.drop_last());
        match parse_line(lines.last()) {
            Some((k, v)) => before.push(k),
            None => before,
        }
    }
}

/// A line is cut at its first `=`: a key free of `=` and any value, written
/// with a `=` between them, give that key and that value, each without the
/// quotes around it.
pub proof fn lemma_parse_line_pair(key: Seq<char>, value: Seq<char>)
    requires
        !key.contains('='),
    ensures
        parse_line(key + seq!['='] + value) == Some((trim(key, '"'), trim(value, '"'))),
{
    let line = key + seq!['='] + value;
    let e = key.len() as int;
    assert forall|j: int| 0 <= j < e implies line[j] != '=' by {
        if key[j] == '=' {
            assert(key.contains('='));
        }
    }
    lemma_find_is(line, '=', e);
    assert(line.take(e) =~= key);
    assert(line.skip(e + 1) =~= value);
}

/// A line gives no entry exactly when it holds no `=`.
pub proof fn lemma_parse_line_none(line: Seq<char>)
    ensures
        has_entry(line) <==> line.contains('='),
{
    lemma_find(line, '=');
    let e = find(line, '=');
    if e < line.len() {
        assert(line.contains('='));
    } else {
        assert forall|j: int| 0 <= j < line.len() implies line[j] != '=' by {}
    }
}

/// A line that gives no entry changes nothing, wherever it stands.
pub proof fn lemma_line_without_entry_is_ignored(
    before: Seq<Seq<char>>,
    line: Seq<char>,
    after: Seq<Seq<char>>,
)
    requires
        !has_entry(line),
    ensures
        entries(before + seq![line] + after) == entries(before + after),
        line_keys(before + seq![line] + after) == line_keys(before + after),
    decreases after.len(),
{
    let with = before + seq![line] + after;
    let without = before + after;
    if after.len() == 0 {
        assert(with.drop_last() =~= before);
        assert(without =~= before);
    } else {
        assert(with.drop_last() =~= before + seq![line] + after.drop_last());
        assert(without.drop_last() =~= before + after.drop_last());
        assert(with.last() == without.last());
        lemma_line_without_entry_is_ignored(before, line, after.drop_last());
    }
}

/// The last line that gives `key` decides its value.
pub proof fn lemma_last_line_wins(lines: Seq<Seq<char>>, i: int)
    requires
        0 <= i < lines.len(),
        has_entry(lines[i]),
        forall|j: int|
            i < j < lines.len() && has_entry(#[trigger] lines[j]) ==> key_of(lines[j]) != key_of(
                lines[i],
            ),
    ensures
        entries(lines).contains_key(key_of(lines[i])),
        entries(lines)[key_of(lines[i])] == value_of(lines[i]),
    decreases lines.len(),
{
    if i < lines.len() - 1 {
        let front = lines.drop_last();
        assert(front[i] == lines[i]);
        assert forall|j: int| i < j < front.len() && has_entry(
            #[trigger] front[j],
        ) implies key_of(front[j]) != key_of(front[i]) by {
            assert(front[j] == lines[j]);
        }
        lemma_last_line_wins(front, i);
        assert(lines.last() == lines[lines.len() - 1]);
    }
}

/// The keys of the entries are the keys that the lines give.
pub proof fn lemma_entry_keys(lines: Seq<Seq<char>>)
    ensures
        entries(lines).dom() == line_keys(lines).to_set(),
        entries(lines).dom().finite(),
    decreases lines.len(),
{
    if lines.len() == 0 {
        assert(entries(lines).dom() =~= line_keys(lines).to_set());
    } else {
        let front = lines.drop_last();
        lemma_entry_keys(front);
        if has_entry(lines.last()) {
            let k = key_of(lines.last());
            let ks = line_keys(front);
            assert(line_keys(lines) == ks.push(k));
            assert(entries(lines) == entries(front).insert(k, value_of(lines.last())));
            assert forall|x: Seq<char>| #[trigger]
                entries(lines).dom().contains(x) <==> line_keys(lines).to_set().contains(
                    x,
                ) by {
                if ks.contains(x) {
                    let j = ks.index_of(x);
                    assert(ks.push(k)[j] == x);
                }
                if x == k {
                    assert(ks.push(k)[ks.len() as int] == x);
                }
                if ks.push(k).contains(x) && x != k {
                    let j = ks.push(k).index_of(x);
                    assert(ks[j] == x);
                }
                assert(ks.to_set().contains(x) <==> ks.contains(x));
            }
            assert(entries(lines).dom() =~= line_keys(lines).to_set());
        }
    }
}

/// Where no two lines give the same key, there are as many entries as lines
/// that give one.
pub proof fn lemma_entry_count(lines: Seq<Seq<char>>)
    requires
        line_keys(lines).no_duplicates(),
    ensures
        entries(lines).dom().finite(),
        entries(lines).len() == line_keys(lines).len(),
{
    lemma_entry_keys(lines);
    line_keys(lines).unique_seq_to_set();
}

/// Looking a key up in a parsed text gives the value of the last line that
/// has the key: for lines free of line feeds, written one below the other.
pub proof fn lemma_lookup_after_parse(lines: Seq<Seq<char>>, i: int)
    requires
        forall|j: int| 0 <= j < lines.len() ==> !(#[trigger] lines[j]).contains('\n'),
        0 <= i < lines.len(),
        has_entry(lines[i]),
        forall|j: int|
            i < j < lines.len() && has_entry(#[trigger] lines[j]) ==> key_of(lines[j]) != key_of(
                lines[i],
            ),
    ensures
        parse_text(join(lines, '\n')).contains_key(key_of(lines[i])),
        parse_text(join(lines, '\n'))[key_of(lines[i])] == value_of(lines[i]),
{
    lemma_split_join(lines, '\n');
    lemma_last_line_wins(lines, i);
}

/// A parsed text has as many entries as it has lines that give one, where
/// no two of them give the same key: for lines free of line feeds, written
/// one below the other. Lines that give no entry do not count.
pub proof fn lemma_count_after_parse(lines: Seq<Seq<char>>)
    requires
        lines.len() >= 1,
        forall|j: int| 0 <= j < lines.len() ==> !(#[trigger] lines[j]).contains('\n'),
        line_keys(lines).no_duplicates(),
    ensures
        parse_text(join(lines, '\n')).dom().finite(),
        parse_text(join(lines, '\n')).len() == line_keys(lines).len(),
{
    lemma_split_join(lines, '\n');
    lemma_entry_count(lines);
}

/// The map that sends `ks[i]` to `vs[i]`.
spec fn zip(ks: Seq<Seq<char>>, vs: Seq<Seq<char>>) -> Map<Seq<char>, Seq<char>> {
    Map::new(|k: Seq<char>| ks.contains(k), |k: Seq<char>| vs[ks.index_of(k)])
}

/// In a sequence without duplicates an element is found at its own place.
proof fn lemma_index_of(ks: Seq<Seq<char>>, i: int)
    requires
        ks.no_duplicates(),
        0 <= i < ks.len(),
    ensures
        ks.contains(ks[i]),
        ks.index_of(ks[i]) == i,
{
    let j = ks.index_of(ks[i]);
    assert(0 <= j < ks.len() && ks[j] == ks[i]);
}

/// The keys of a list of pairs, in order.
spec fn keys_of(pairs: Seq<(String, String)>) -> Seq<Seq<char>> {
    Seq::new(pairs.len(), |i: int| pairs[i].0@)
}

/// The values of a list of pairs, in order.
spec fn values_of(pairs: Seq<(String, String)>) -> Seq<Seq<char>> {
    Seq::new(pairs.len(), |i: int| pairs[i].1@)
}

/// The place of `key` among the pairs.
fn position(pairs: &Vec<(String, String)>, key: &str) -> (r: Option<usize>)
    ensures
        match r {
            Some(i) => i < pairs@.len() && keys_of(pairs@)[i as int] == key@,
            None => !keys_of(pairs@).contains(key@),
        },
{
    let mut i: usize = 0;
    while i < pairs.len()
        invariant
            i <= pairs.len(),
            forall|j: int| 0 <= j < i ==> keys_of(pairs@)[j] != key@,
        decreases pairs.len() - i,
    {
        if str_eq(pairs[i].0.as_str(), key) {
            return Some(i);
        }
        i += 1;
    }
    None
}

/// Sets the value of `key`, whether the key is new or not.
fn put(pairs: &mut Vec<(String, String)>, key: String, value: String)
    requires
        keys_of(old(pairs)@).no_duplicates(),
    ensures
        keys_of(final(pairs)@).no_duplicates(),
        zip(keys_of(final(pairs)@), values_of(final(pairs)@)) == zip(
            keys_of(old(pairs)@),
            values_of(old(pairs)@),
        ).insert(key@, value@),
{
    let ghost ks = keys_of(pairs@);
    let ghost vs = values_of(pairs@);
    match position(pairs, key.as_str()) {
        Some(i) => {
            pairs.set(i, (key, value));
            proof {
                let vs2 = values_of(pairs@);
                assert(keys_of(pairs@) =~= ks);
                assert(vs2 =~= vs.update(i as int, value@));
                assert forall|k: Seq<char>| ks.contains(k) implies #[trigger] zip(ks, vs2)[k]
                    == zip(ks, vs).insert(key@, value@)[k] by {
                    if k == key@ {
                        lemma_index_of(ks, i as int);
                    }
                }
                assert(ks.contains(key@));
                assert(zip(ks, vs2) =~= zip(ks, vs).insert(key@, value@));
            }
        },
        None => {
            pairs.push((key, value));
            proof {
                let ks2 = keys_of(pairs@);
                let vs2 = values_of(pairs@);
                assert(ks2 =~= ks.push(key@));
                assert(vs2 =~= vs.push(value@));
                assert(ks2.no_duplicates());
                assert(ks2[ks.len() as int] == key@);
                assert forall|k: Seq<char>| ks2.contains(k) implies #[trigger] zip(ks2, vs2)[k]
                    == zip(ks, vs).insert(key@, value@)[k] by {
                    let j = ks2.index_of(k);
                    if k == key@ {
                        lemma_index_of(ks2, ks.len() as int);
                    } else {
                        assert(j < ks.len());
                        assert(ks[j] == k);
                        lemma_index_of(ks, j);
                    }
                }
                assert forall|k: Seq<char>| ks2.contains(k) <==> (ks.contains(k) || k
                    == key@) by {
                    if ks.contains(k) {
                        let j = ks.index_of(k);
                        assert(ks2[j] == k);
                    }
                }
                assert(zip(ks2, vs2) =~= zip(ks, vs).insert(key@, value@));
            }
        },
    }
}

/// The parsed entries of a release file: a finite map from key to value.
pub struct Ini {
    pairs: Vec<(String, String)>,
}

impl View for Ini {
    type V = Map<Seq<char>, Seq<char>>;

    closed spec fn view(&self) -> Map<Seq<char>, Seq<char>> {
        zip(self.keys(), self.values())
    }
}

impl Ini {
    /// The keys, in the order in which they first came.
    spec fn keys(&self) -> Seq<Seq<char>> {
        keys_of(self.pairs@)
    }

    /// The values, each at the place of its key.
    spec fn values(&self) -> Seq<Seq<char>> {
        values_of(self.pairs@)
    }

    #[verifier::type_invariant]
    spec fn distinct_keys(&self) -> bool {
        self.keys().no_duplicates()
    }

    /// The keys are distinct, and the map sends each to the value at its
    /// place.
    proof fn lemma_entries(&self)
        requires
            self.keys().no_duplicates(),
        ensures
            self.keys().len() == self.values().len(),
            self@.dom() == self.keys().to_set(),
            self@.dom().finite(),
            self@.len() == self.keys().len(),
            forall|i: int|
                0 <= i < self.keys().len() ==> self@.contains_key(#[trigger] self.keys()[i])
                    && self@[self.keys()[i]] == self.values()[i],
    {
        let ks = self.keys();
        assert(self@.dom() =~= ks.to_set());
        ks.unique_seq_to_set();
        vstd::seq_lib::seq_to_set_is_finite(ks);
        assert forall|i: int| 0 <= i < ks.len() implies self@.contains_key(#[trigger] ks[i])
            && self@[ks[i]] == self.values()[i] by {
            lemma_index_of(ks, i);
        }
    }

    /// Reads the entries out of the text of a release file. No text is
    /// refused: a line that gives no entry is passed over.
    pub fn parse(text: &str) -> (ini: Ini)
        ensures
            ini@ == parse_text(text@),
    {
        let v = chars_of(text);
        let lines = split_ranges(&v, '\n');
        let ghost all = split(text@, '\n');
        let mut pairs: Vec<(String, String)> = Vec::new();
        assert(zip(keys_of(pairs@), values_of(pairs@)) =~= Map::<
            Seq<char>,
            Seq<char>,
        >::empty());
        assert(all.take(0) =~= Seq::<Seq<char>>::empty());
        let mut j: usize = 0;
        while j < lines.len()
            invariant
                j <= lines.len(),
                v@ == text@,
                all == split(text@, '\n'),
                ranges_within(lines@, v@.len()),
                pieces(v@, lines@) == all,
                keys_of(pairs@).no_duplicates(),
                zip(keys_of(pairs@), values_of(pairs@)) == entries(all.take(j as int)),
            decreases lines.len() - j,
        {
            let (a, b) = lines[j];
            let ghost line = v@.subrange(a as int, b as int);
            assert(lines@[j as int].0 <= lines@[j as int].1 <= v@.len());
            assert(all[j as int] == line);
            let e = find_char(&v, a, b, '=');
            if e < b {
                let (ka, kb) = trim_range(&v, a, e, '"');
                let (va, vb) = trim_range(&v, e + 1, b, '"');
                let key = text.substring_char(ka, kb).to_owned();
                let value = text.substring_char(va, vb).to_owned();
                proof {
                    assert(line.take(e - a) =~= v@.subrange(a as int, e as int));
                    assert(line.skip(e - a + 1) =~= v@.subrange(e + 1, b as int));
                    assert(parse_line(line) == Some((key@, value@)));
                }
                put(&mut pairs, key, value);
            }
            proof {
                assert(all.take(j + 1).drop_last() =~= all.take(j as int));
                assert(all.take(j + 1).last() == line);
            }
            j += 1;
        }
        assert(all.take(lines.len() as int) =~= all);
        Ini { pairs }
    }

    /// The value of `key`.
    pub fn get(&self, key: &str) -> (r: Option<&str>)
        ensures
            match r {
                Some(v) => self@.contains_key(key@) && v@ == self@[key@],
                None => !self@.contains_key(key@),
            },
    {
        proof {
            use_type_invariant(self);
            self.lemma_entries();
        }
        match position(&self.pairs, key) {
            Some(i) => {
                assert(self.values()[i as int] == self.pairs@[i as int].1@);
                Some(self.pairs[i].1.as_str())
            },
            None => None,
        }
    }

    /// The number of entries.
    pub fn len(&self) -> (n: usize)
        ensures
            n == self@.len(),
            self@.dom().finite(),
    {
        proof {
            use_type_invariant(self);
            self.lemma_entries();
        }
        self.pairs.len()
    }

    /// Whether some value holds `pattern` as a substring.
    pub fn any_value_contains(&self, pattern: &str) -> (r: bool)
        ensures
            r == any_value_contains(self@, pattern@),
    {
        proof {
            use_type_invariant(self);
            self.lemma_entries();
        }
        let needle = chars_of(pattern);
        let mut i: usize = 0;
        while i < self.pairs.len()
            invariant
                i <= self.pairs.len(),
                needle@ == pattern@,
                forall|j: int| 0 <= j < i ==> !crate::text::contains(self.values()[j], pattern@),
            decreases self.pairs.len() - i,
        {
            let hay = chars_of(self.pairs[i].1.as_str());
            if crate::text::has_substring(&hay, &needle) {
                proof {
                    use_type_invariant(self);
                    self.lemma_entries();
                    let k = self.keys()[i as int];
                    assert(self.values()[i as int] == hay@);
                    assert(self@.contains_key(k) && crate::text::contains(self@[k], pattern@));
                }
                return true;
            }
            i += 1;
        }
        proof {
            use_type_invariant(self);
            self.lemma_entries();
            assert forall|k: Seq<char>| self@.contains_key(k) implies !crate::text::contains(
                #[trigger] self@[k],
                pattern@,
            ) by {
                let j = self.keys().index_of(k);
                assert(self.keys()[j] == k);
            }
        }
        false
    }

    /// The entries as a hash map.
    pub fn into_hash_map(self) -> (m: StringHashMap<String>)
        ensures
            m@.dom() == self@.dom(),
            forall|k: Seq<char>| self@.contains_key(k) ==> (#[trigger] m@[k])@ == self@[k],
    {
        proof {
            use_type_invariant(&self);
            self.lemma_entries();
        }
        let mut m: StringHashMap<String> = StringHashMap::new();
        let mut i: usize = 0;
        while i < self.pairs.len()
            invariant
                i <= self.pairs.len(),
                self.keys().no_duplicates(),
                forall|k: Seq<char>|
                    m@.contains_key(k) <==> self.keys().take(i as int).contains(k),
                forall|j: int|
                    0 <= j < i ==> (#[trigger] m@[self.keys()[j]])@ == self.values()[j],
            decreases self.pairs.len() - i,
        {
            let ghost before = m@;
            let key = self.pairs[i].0.clone();
            let value = self.pairs[i].1.clone();
            m.insert(key, value);
            proof {
                let ks = self.keys();
                assert(ks[i as int] == key@);
                assert(ks.take(i + 1) =~= ks.take(i as int).push(key@));
                assert(m@ == before.insert(key@, value));
                assert(ks.take(i + 1)[i as int] == key@);
                assert forall|k: Seq<char>| m@.contains_key(k) <==> ks.take(i + 1).contains(
                    k,
                ) by {
                    if before.contains_key(k) {
                        assert(ks.take(i as int).contains(k));
                        let j = ks.take(i as int).index_of(k);
                        assert(ks.take(i + 1)[j] == k);
                    }
                    if ks.take(i + 1).contains(k) && k != key@ {
                        let j = ks.take(i + 1).index_of(k);
                        assert(ks.take(i as int)[j] == k);
                    }
                }
                assert forall|j: int| 0 <= j < i + 1 implies (#[trigger] m@[ks[j]])@
                    == self.values()[j] by {
                    if j < i {
                        assert(ks[j] != ks[i as int]);
                    }
                }
            }
            i += 1;
        }
        proof {
            let ks = self.keys();
            assert(ks.take(ks.len() as int) =~= ks);
            assert(m@.dom() =~= self@.dom());
            assert forall|k: Seq<char>| self@.contains_key(k) implies (#[trigger] m@[k])@
                == self@[k] by {
                let j = ks.index_of(k);
                assert(ks[j] == k);
            }
        }
        m
    }
}

/// Some value of `m` holds `pattern` as a substring.
pub open spec fn any_value_contains(m: Map<Seq<char>, Seq<char>>, pattern: Seq<char>) -> bool {
    exists|k: Seq<char>| m.contains_key(k) && crate::text::contains(#[trigger] m[k], pattern)
}

} // verus!
