//! The change manifest: when each backed-up folder last changed, stored as
//! `name=seconds` lines sorted by name, so that unchanged folders are skipped.
use vstd::prelude::*;
use crate::keymap::{KeyMap, entries_map, lemma_entries_map, lemma_sorted_unique, strictly_sorted};
use crate::text::{
    chars_of, decimal, find_char, free_of, is_digit, lemma_decimal, lemma_index_of_at,
    lemma_lines_terminated, lemma_trim_decimal, lines, lines_of, parse_unsigned, parse_unsigned_str,
    plain_line, push_char, push_decimal, push_str, split_once, string_of, terminated, trim, trim_bounds,
};

verus! {

/// The manifest: folder name to modification time in seconds.
pub type Manifest = KeyMap<u64>;

/// One manifest line read as an entry: the trimmed text before the first `=`
/// and the trimmed number after it; a line without `=` or with a bad number
/// gives nothing.
pub open spec fn manifest_entry(line: Seq<char>) -> Option<(Seq<char>, u64)> {
    match split_once(line, '=') {
        Some((k, v)) => match parse_unsigned(trim(v), u64::MAX as nat) {
            Some(n) => Some((trim(k), n as u64)),
            None => None,
        },
        None => None,
    }
}

/// The entries that a sequence of lines holds, in order.
pub open spec fn manifest_entries(ls: Seq<Seq<char>>) -> Seq<(Seq<char>, u64)>
    decreases ls.len(),
{
    if ls.len() == 0 {
        seq![]
    } else {
        let p = manifest_entries(ls.drop_last());
        match manifest_entry(ls.last()) {
            Some(e) => p.push(e),
            None => p,
        }
    }
}

/// The manifest that a file's text holds; a later line for a name wins.
pub open spec fn manifest_of(content: Seq<char>) -> Map<Seq<char>, u64> {
    entries_map(manifest_entries(lines(content)))
}

/// The line written for one entry: `name=seconds`.
pub open spec fn manifest_line(e: (Seq<char>, u64)) -> Seq<char> {
    e.0 + seq!['='] + decimal(e.1 as nat)
}

/// The file text written for entries in this order.
pub open spec fn manifest_text_of(es: Seq<(Seq<char>, u64)>) -> Seq<char> {
    terminated(es.map_values(|e: (Seq<char>, u64)| manifest_line(e)))
}

/// A name that survives being written and read back: no `=`, no line feed,
/// and no whitespace at its ends.
pub open spec fn manifest_key(k: Seq<char>) -> bool {
    free_of(k, '=') && free_of(k, '\n') && trim(k) == k
}

/// Reads a manifest file's text.
pub fn load_manifest(content: &str) -> (m: Manifest)
    ensures
        m.wf(),
        m.map() == manifest_of(content@),
{
    let ls = lines_of(content);
    let ghost lv = ls.deep_view();
    let mut m: Manifest = KeyMap::new();
    let mut j: usize = 0;
    assert(lv.take(0) =~= Seq::<Seq<char>>::empty());
    while j < ls.len()
        invariant
            j <= ls@.len(),
            lv == ls.deep_view(),
            lv == lines(content@),
            m.wf(),
            m.map() == entries_map(manifest_entries(lv.take(j as int))),
        decreases ls@.len() - j,
    {
        let v = chars_of(ls[j].as_str());
        let n = v.len();
        let ghost line = lv[j as int];
        assert(v@ == line);
        assert(lv.take(j + 1).drop_last() =~= lv.take(j as int));
        assert(lv.take(j + 1).last() == line);
        let i = find_char(&v, 0, n, '=');
        assert(v@.subrange(0, n as int) =~= v@);
        if i < n {
            let (a, b) = trim_bounds(&v, i + 1, n);
            let (c, d) = trim_bounds(&v, 0, i);
            assert(v@.subrange(i + 1, n as int) =~= line.skip(i + 1));
            assert(v@.subrange(0, i as int) =~= line.take(i as int));
            let vs = string_of(&v, a, b);
            match parse_unsigned_str(vs.as_str(), u64::MAX) {
                Some(t) => {
                    let key = string_of(&v, c, d);
                    m.insert(key, t);
                    proof {
                        let p = manifest_entries(lv.take(j as int));
                        assert(manifest_entry(line) == Some((key@, t)));
                        assert(p.push((key@, t)).drop_last() =~= p);
                    }
                },
                None => {
                    assert(manifest_entry(line) is None);
                },
            }
        } else {
            assert(manifest_entry(line) is None);
        }
        j = j + 1;
    }
    assert(lv.take(ls@.len() as int) =~= lv);
    m
}

/// The file text of a manifest: one `name=seconds` line per entry, sorted
/// by name.
pub fn manifest_text(m: &Manifest) -> (r: String)
    ensures
        r@ == manifest_text_of(m.entries()),
{
    let ghost es = m.entries();
    let ghost f = |e: (Seq<char>, u64)| manifest_line(e);
    let mut r = String::new();
    let mut j: usize = 0;
    assert(es.take(0).map_values(f) =~= Seq::<Seq<char>>::empty());
    while j < m.len()
        invariant
            j <= es.len(),
            es == m.entries(),
            f == (|e: (Seq<char>, u64)| manifest_line(e)),
            r@ == terminated(es.take(j as int).map_values(f)),
        decreases es.len() - j,
    {
        let ghost before = r@;
        push_str(&mut r, m.key_at(j).as_str());
        push_char(&mut r, '=');
        push_decimal(&mut r, *m.value_at(j));
        push_char(&mut r, '\n');
        proof {
            let l = es.take(j + 1).map_values(f);
            assert(l =~= es.take(j as int).map_values(f).push(manifest_line(es[j as int])));
            assert(l.drop_last() =~= es.take(j as int).map_values(f));
            assert(r@ =~= before + manifest_line(es[j as int]).push('\n'));
        }
        j = j + 1;
    }
    assert(es.take(es.len() as int) =~= es);
    r
}

/// Whether `name` was recorded with exactly this modification time, so that
/// its copy can be skipped.
pub open spec fn unchanged(m: Map<Seq<char>, u64>, name: Seq<char>, mtime: u64) -> bool {
    m.contains_key(name) && m[name] == mtime
}

/// Whether `name` was recorded with exactly this modification time.
pub fn is_unchanged(m: &Manifest, name: &str, mtime: u64) -> (b: bool)
    requires
        m.wf(),
    ensures
        b == unchanged(m.map(), name@, mtime),
{
    match m.get(name) {
        Some(t) => *t == mtime,
        None => false,
    }
}

/// Records that `name` was copied when its modification time was `mtime`.
pub fn record(m: &mut Manifest, name: String, mtime: u64)
    requires
        old(m).wf(),
    ensures
        final(m).wf(),
        final(m).map() == old(m).map().insert(name@, mtime),
{
    m.insert(name, mtime);
}

/// Once a folder is recorded with a time, a later run that sees the same time
/// skips it.
pub proof fn law_record_then_unchanged(m: Map<Seq<char>, u64>, name: Seq<char>, mtime: u64)
    ensures
        unchanged(m.insert(name, mtime), name, mtime),
{
}

/// The line of an entry with a plain name reads back as that entry.
proof fn lemma_manifest_line(e: (Seq<char>, u64))
    requires
        manifest_key(e.0),
    ensures
        manifest_entry(manifest_line(e)) == Some(e),
        plain_line(manifest_line(e)),
{
    let l = manifest_line(e);
    let k = e.0;
    let d = decimal(e.1 as nat);
    lemma_decimal(e.1 as nat);
    lemma_trim_decimal(e.1 as nat);
    assert(l[k.len() as int] == '=');
    assert forall|j: int| 0 <= j < k.len() implies l[j] != '=' by {
        assert(l[j] == k[j]);
    }
    lemma_index_of_at(l, '=', k.len() as int);
    assert(l.take(k.len() as int) =~= k);
    assert(l.skip(k.len() as int + 1) =~= d);
    assert(parse_unsigned(d, u64::MAX as nat) == Some(e.1 as nat));
    assert forall|j: int| 0 <= j < l.len() implies l[j] != '\n' by {
        if j < k.len() {
            assert(l[j] == k[j]);
        } else if j > k.len() {
            assert(l[j] == d[j - k.len() - 1]);
            assert(is_digit(d[j - k.len() - 1]));
        }
    }
    assert(l.last() == d.last());
}

/// Reading back the text written for a manifest gives the same manifest,
/// when every name is plain (no `=`, no line feed, no whitespace at its ends).
pub proof fn law_manifest_round_trip(m: &Manifest)
    requires
        m.wf(),
        forall|k: Seq<char>| #[trigger] m.map().contains_key(k) ==> manifest_key(k),
    ensures
        manifest_of(manifest_text_of(m.entries())) == m.map(),
{
    let es = m.entries();
    let f = |e: (Seq<char>, u64)| manifest_line(e);
    let ls = es.map_values(f);
    lemma_sorted_unique(es);
    lemma_entries_map(es);
    assert forall|i: int| 0 <= i < es.len() implies manifest_key(#[trigger] es[i].0) by {
        assert(m.map().contains_key(es[i].0));
    }
    assert forall|i: int| 0 <= i < ls.len() implies plain_line(#[trigger] ls[i]) by {
        lemma_manifest_line(es[i]);
    }
    lemma_lines_terminated(ls);
    assert forall|j: int| 0 <= j <= es.len() implies #[trigger] manifest_entries(ls.take(j))
        == es.take(j) by {
        lemma_entries_prefix(es, j);
    }
    assert(ls.take(ls.len() as int) =~= ls);
    assert(es.take(es.len() as int) =~= es);
}

/// Reading the lines of the first `j` entries gives those entries.
proof fn lemma_entries_prefix(es: Seq<(Seq<char>, u64)>, j: int)
    requires
        0 <= j <= es.len(),
        forall|i: int| 0 <= i < es.len() ==> manifest_key(#[trigger] es[i].0),
    ensures
        manifest_entries(es.map_values(|e: (Seq<char>, u64)| manifest_line(e)).take(j)) == es.take(j),
    decreases j,
{
    let ls = es.map_values(|e: (Seq<char>, u64)| manifest_line(e));
    if j == 0 {
        assert(ls.take(0) =~= Seq::<Seq<char>>::empty());
        assert(es.take(0) =~= Seq::<(Seq<char>, u64)>::empty());
    } else {
        lemma_entries_prefix(es, j - 1);
        assert(ls.take(j).drop_last() =~= ls.take(j - 1));
        assert(ls.take(j).last() == manifest_line(es[j - 1]));
        lemma_manifest_line(es[j - 1]);
        assert(es.take(j) =~= es.take(j - 1).push(es[j - 1]));
    }
}

} // verus!
