//! Reading tags and ids back from the names of data files, and choosing
//! the binary files of a folder in a fixed order.

use vstd::prelude::*;
use crate::text;

verus! {

/// The index of the last `c` in `s`, if there is one.
pub open spec fn last_index_of(s: Seq<char>, c: char) -> Option<int>
    decreases s.len(),
{
    if s.len() == 0 {
        None
    } else if s.last() == c {
        Some(s.len() - 1)
    } else {
        last_index_of(s.drop_last(), c)
    }
}

/// The stem and the extension of a file name, as `Path::file_stem` and
/// `Path::extension` split it: at the last dot, unless that dot opens the
/// name, there is none, or the name is `..`.
pub open spec fn stem_and_extension(name: Seq<char>) -> (Seq<char>, Option<Seq<char>>) {
    if name == seq!['.', '.'] {
        (name, None)
    } else {
        match last_index_of(name, '.') {
            None => (name, None),
            Some(p) => if p == 0 {
                (name, None)
            } else {
                (name.subrange(0, p), Some(name.subrange(p + 1, name.len() as int)))
            },
        }
    }
}

pub open spec fn bin_text() -> Seq<char> {
    seq!['b', 'i', 'n']
}

/// Whether a file name has the extension `bin`.
pub open spec fn is_binary_name(name: Seq<char>) -> bool {
    stem_and_extension(name).1 == Some(bin_text())
}

/// The tag and id of a file named `{tag}-{id}.bin`: the stem is cut at its
/// last dash, and what follows the dash must read as a `usize`.
pub open spec fn tag_and_id_text(name: Seq<char>) -> Option<(Seq<char>, usize)> {
    let stem = stem_and_extension(name).0;
    if !is_binary_name(name) {
        None
    } else {
        match last_index_of(stem, '-') {
            None => None,
            Some(p) => match text::parse_usize_text(stem.subrange(p + 1, stem.len() as int)) {
                None => None,
                Some(id) => Some((stem.subrange(0, p), id)),
            },
        }
    }
}

/// A position `p` holding `c` with no `c` after it is the last index of `c`.
pub proof fn lemma_last_index_of_at(s: Seq<char>, c: char, p: int)
    requires
        0 <= p < s.len(),
        s[p] == c,
        forall|i: int| p < i < s.len() ==> s[i] != c,
    ensures
        last_index_of(s, c) == Some(p),
    decreases s.len(),
{
    if p < s.len() - 1 {
        lemma_last_index_of_at(s.drop_last(), c, p);
    }
}

/// No `c` in `s` means no last index of it.
proof fn lemma_last_index_of_none(s: Seq<char>, c: char)
    requires
        forall|i: int| 0 <= i < s.len() ==> s[i] != c,
    ensures
        last_index_of(s, c) == None::<int>,
    decreases s.len(),
{
    if s.len() > 0 {
        lemma_last_index_of_none(s.drop_last(), c);
    }
}

/// The index of the last `c` in `s`.
fn find_last(s: &str, c: char) -> (r: Option<usize>)
    ensures
        match r {
            None => last_index_of(s@, c) == None::<int>,
            Some(p) => last_index_of(s@, c) == Some(p as int) && p < s@.len() && s@[p as int]
                == c,
        },
{
    let len = s.unicode_len();
    let mut i: usize = len;
    while i > 0
        invariant
            i <= len,
            len == s@.len(),
            forall|j: int| i <= j < len ==> s@[j] != c,
        decreases i,
    {
        if s.get_char(i - 1) == c {
            proof {
                lemma_last_index_of_at(s@, c, i - 1);
            }
            return Some(i - 1);
        }
        i = i - 1;
    }
    proof {
        lemma_last_index_of_none(s@, c);
    }
    None
}

/// Whether the file name `name` ends in `.bin` in the sense of
/// `Path::extension`; if so, the length of its stem.
fn binary_stem_len(name: &str) -> (r: Option<usize>)
    ensures
        r is Some <==> is_binary_name(name@),
        r matches Some(k) ==> k as int + 4 == name@.len() && stem_and_extension(name@).0
            =~= name@.subrange(0, k as int),
{
    let len = name.unicode_len();
    if len == 2 && name.get_char(0) == '.' && name.get_char(1) == '.' {
        assert(name@ =~= seq!['.', '.']);
        return None;
    }
    assert(name@ != seq!['.', '.']);
    match find_last(name, '.') {
        None => None,
        Some(p) => {
            if p == 0 {
                return None;
            }
            let ghost ext = name@.subrange(p + 1, len as int);
            if len - p == 4 && name.get_char(p + 1) == 'b' && name.get_char(p + 2) == 'i'
                && name.get_char(p + 3) == 'n' {
                assert(ext =~= bin_text());
                Some(p)
            } else {
                assert(ext != bin_text()) by {
                    if ext =~= bin_text() {
                        assert(ext[0] == name@[p + 1]);
                        assert(ext[1] == name@[p + 2]);
                        assert(ext[2] == name@[p + 3]);
                    }
                }
                None
            }
        },
    }
}

/// The tag and the id of a data file named `{tag}-{id}.bin`, as the
/// listings of saved ensembles and simulations read them: `None` for a name
/// without the extension `bin`, without a dash in its stem, or whose text
/// after the last dash is not a `usize`.
pub fn parse_tag_and_id(name: &str) -> (r: Option<(String, usize)>)
    ensures
        match r {
            None => tag_and_id_text(name@) is None,
            Some((tag, id)) => tag_and_id_text(name@) == Some((tag@, id)),
        },
{
    match binary_stem_len(name) {
        None => None,
        Some(k) => {
            let stem = name.substring_char(0, k);
            match find_last(stem, '-') {
                None => None,
                Some(p) => {
                    let digits = stem.substring_char(p + 1, k);
                    match text::parse_usize(digits) {
                        None => None,
                        Some(id) => {
                            let tag = String::from_str(stem.substring_char(0, p));
                            Some((tag, id))
                        },
                    }
                },
            }
        },
    }
}

/// The lexicographic order of texts, character by character, with a
/// prefix before every longer text that extends it. For names in one
/// folder it is the order in which `sort` puts their paths.
pub open spec fn text_le(a: Seq<char>, b: Seq<char>) -> bool
    decreases a.len(),
{
    if a.len() == 0 {
        true
    } else if b.len() == 0 {
        false
    } else if a[0] != b[0] {
        a[0] < b[0]
    } else {
        text_le(a.drop_first(), b.drop_first())
    }
}

/// Texts are ordered by their first differing character, compared as
/// characters: the text with the smaller character there comes first, and
/// not the other way round.
pub proof fn lemma_text_le_first_difference(a: Seq<char>, b: Seq<char>, i: int)
    requires
        0 <= i < a.len(),
        i < b.len(),
        a.subrange(0, i) == b.subrange(0, i),
        a[i] < b[i],
    ensures
        text_le(a, b),
        !text_le(b, a),
    decreases i,
{
    if i > 0 {
        assert(a[0] == a.subrange(0, i)[0]);
        assert(b[0] == b.subrange(0, i)[0]);
        assert(a.drop_first().subrange(0, i - 1) =~= b.drop_first().subrange(0, i - 1)) by {
            assert forall|k: int| 0 <= k < i - 1 implies a.drop_first()[k] == b.drop_first()[k] by {
                assert(a.subrange(0, i)[k + 1] == a[k + 1]);
                assert(b.subrange(0, i)[k + 1] == b[k + 1]);
                assert(a.subrange(0, i)[k + 1] == b.subrange(0, i)[k + 1]);
            }
        }
        lemma_text_le_first_difference(a.drop_first(), b.drop_first(), i - 1);
    }
}

/// A text comes before every longer text that starts with it, and not
/// after it.
pub proof fn lemma_text_le_prefix(a: Seq<char>, b: Seq<char>)
    requires
        a.len() < b.len(),
        a == b.subrange(0, a.len() as int),
    ensures
        text_le(a, b),
        !text_le(b, a),
    decreases a.len(),
{
    if a.len() > 0 {
        assert(a[0] == b[0]);
        assert(a.drop_first() =~= b.drop_first().subrange(0, a.len() - 1));
        lemma_text_le_prefix(a.drop_first(), b.drop_first());
    }
}

pub proof fn lemma_text_le_total(a: Seq<char>, b: Seq<char>)
    ensures
        text_le(a, b) || text_le(b, a),
    decreases a.len(),
{
    if a.len() > 0 && b.len() > 0 && a[0] == b[0] {
        lemma_text_le_total(a.drop_first(), b.drop_first());
    }
}

pub proof fn lemma_text_le_transitive(a: Seq<char>, b: Seq<char>, c: Seq<char>)
    requires
        text_le(a, b),
        text_le(b, c),
    ensures
        text_le(a, c),
    decreases a.len(),
{
    if a.len() > 0 && b.len() > 0 && c.len() > 0 && a[0] == b[0] && b[0] == c[0] {
        lemma_text_le_transitive(a.drop_first(), b.drop_first(), c.drop_first());
    }
}

/// Whether `a` comes no later than `b` in the order of `text_le`.
fn str_le(a: &str, b: &str) -> (r: bool)
    ensures
        r == text_le(a@, b@),
{
    let la = a.unicode_len();
    let lb = b.unicode_len();
    let mut i: usize = 0;
    assert(a@.skip(0) =~= a@);
    assert(b@.skip(0) =~= b@);
    while i < la && i < lb
        invariant
            la == a@.len(),
            lb == b@.len(),
            i <= la,
            i <= lb,
            text_le(a@, b@) == text_le(a@.skip(i as int), b@.skip(i as int)),
        decreases la - i,
    {
        let ca = a.get_char(i);
        let cb = b.get_char(i);
        assert(a@.skip(i as int)[0] == ca);
        assert(b@.skip(i as int)[0] == cb);
        if ca != cb {
            return ca < cb;
        }
        assert(a@.skip(i as int).drop_first() =~= a@.skip(i + 1));
        assert(b@.skip(i as int).drop_first() =~= b@.skip(i + 1));
        i = i + 1;
    }
    i == la
}

/// A sequence of texts in the order of `text_le`.
pub open spec fn texts_sorted(s: Seq<Seq<char>>) -> bool {
    forall|i: int, j: int| 0 <= i < j < s.len() ==> text_le(s[i], s[j])
}

/// The texts of a sequence of strings.
pub open spec fn texts_of(v: Seq<String>) -> Seq<Seq<char>> {
    v.map_values(|s: String| s@)
}

/// The names of the binary files among `names`, in the order of `text_le`:
/// the `.bin` files of a folder, sorted as the listing of saved data files
/// returns them. Each such name is kept as often as it occurs.
pub fn select_binary_file_names(names: Vec<String>) -> (r: Vec<String>)
    ensures
        texts_sorted(texts_of(r@)),
        texts_of(r@).to_multiset() == texts_of(names@).filter(|n: Seq<char>| is_binary_name(n)).to_multiset(),
{
    let ghost pred = |n: Seq<char>| is_binary_name(n);
    assert(pred == (|n: Seq<char>| is_binary_name(n)));
    let mut r: Vec<String> = Vec::new();
    let mut i: usize = 0;
    assert(texts_of(names@).take(0).filter(pred) =~= Seq::<Seq<char>>::empty());
    assert(texts_of(r@) =~= Seq::<Seq<char>>::empty());
    while i < names.len()
        invariant
            i <= names.len(),
            pred == (|n: Seq<char>| is_binary_name(n)),
            texts_sorted(texts_of(r@)),
            texts_of(r@).to_multiset() == texts_of(names@).take(i as int).filter(pred).to_multiset(),
        decreases names.len() - i,
    {
        let name = names[i].as_str();
        let ghost prefix = texts_of(names@).take(i as int);
        assert(texts_of(names@).take(i + 1) =~= prefix.push(name@));
        proof {
            prefix.lemma_filter_push(name@, pred);
        }
        let is_bin = binary_stem_len(name).is_some();
        assert(is_bin == pred(name@));
        if is_bin {
            let mut pos: usize = 0;
            while pos < r.len() && str_le(r[pos].as_str(), name)
                invariant
                    pos <= r.len(),
                    forall|k: int| 0 <= k < pos ==> text_le(#[trigger] texts_of(r@)[k], name@),
                decreases r.len() - pos,
            {
                pos = pos + 1;
            }
            let ghost before = texts_of(r@);
            proof {
                if pos < r.len() {
                    lemma_text_le_total(before[pos as int], name@);
                }
            }
            r.insert(pos, names[i].clone());
            assert(texts_of(r@) =~= before.insert(pos as int, name@));
            proof {
                vstd::seq_lib::to_multiset_insert(before, pos as int, name@);
                vstd::seq_lib::to_multiset_build(prefix.filter(pred), name@);
                let after = texts_of(r@);
                assert forall|a: int, b: int| 0 <= a < b < after.len() implies text_le(
                    after[a],
                    after[b],
                ) by {
                    if b < pos {
                        assert(after[a] == before[a] && after[b] == before[b]);
                    } else if b == pos {
                        assert(after[a] == before[a]);
                    } else if a == pos {
                        assert(after[b] == before[b - 1]);
                        if b - 1 > pos {
                            lemma_text_le_transitive(name@, before[pos as int], before[b - 1]);
                        }
                    } else if a < pos {
                        assert(after[a] == before[a] && after[b] == before[b - 1]);
                    } else {
                        assert(after[a] == before[a - 1] && after[b] == before[b - 1]);
                    }
                }
            }
        } else {
            assert(prefix.push(name@).filter(pred) =~= prefix.filter(pred));
        }
        i = i + 1;
    }
    assert(texts_of(names@).take(names.len() as int) =~= texts_of(names@));
    r
}

} // verus!
