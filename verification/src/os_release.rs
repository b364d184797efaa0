use vstd::prelude::*;
use crate::text::{
    char_vecs, chars_of, lines, lowercase_chars, lowercase_spec, split_lines, split_words,
    trim_chars, trim_quotes, words,
};

verus! {

/// Whether `s` starts with `p`.
pub open spec fn starts_with(s: Seq<char>, p: Seq<char>) -> bool {
    p.len() <= s.len() && s.take(p.len() as int) == p
}

/// The text after `key` on the last of `ls` that starts with `key`, if any.
pub open spec fn last_value(ls: Seq<Seq<char>>, key: Seq<char>) -> Option<Seq<char>>
    decreases ls.len(),
{
    if ls.len() == 0 {
        None
    } else if starts_with(ls.last(), key) {
        Some(ls.last().skip(key.len() as int))
    } else {
        last_value(ls.drop_last(), key)
    }
}

/// The key of the distribution's identifier: `ID=`.
pub open spec fn id_key() -> Seq<char> {
    seq!['I', 'D', '=']
}

/// The key of the distributions it derives from: `ID_LIKE=`.
pub open spec fn id_like_key() -> Seq<char> {
    seq!['I', 'D', '_', 'L', 'I', 'K', 'E', '=']
}

/// The character sequences held by a sequence of strings.
pub open spec fn strings(v: Seq<String>) -> Seq<Seq<char>> {
    v.map_values(|x: String| x@)
}

/// The distribution identifier that an os-release text names: the value of
/// its last `ID=` line without surrounding quotes, in lowercase; empty when
/// no line sets it.
pub open spec fn os_release_id(text: Seq<char>) -> Seq<char> {
    match last_value(lines(text), id_key()) {
        Some(v) => lowercase_spec(trim_quotes(v)),
        None => Seq::empty(),
    }
}

/// The distributions that an os-release text says it derives from: the
/// whitespace-separated words of its last `ID_LIKE=` line without
/// surrounding quotes, each in lowercase; none when no line sets it.
pub open spec fn os_release_like(text: Seq<char>) -> Seq<Seq<char>> {
    match last_value(lines(text), id_like_key()) {
        Some(v) => words(trim_quotes(v)).map_values(|w: Seq<char>| lowercase_spec(w)),
        None => Seq::empty(),
    }
}

/// What the tool reads from `/etc/os-release`.
pub struct OsRelease {
    /// The distribution's identifier (`ID`), lowercase.
    pub distro_id: String,
    /// The identifiers of the distributions it derives from (`ID_LIKE`).
    pub distro_like: Vec<String>,
}

/// The rest of `line` after `key`, when `line` starts with `key`.
fn strip_prefix(line: &Vec<char>, key: &Vec<char>) -> (r: Option<Vec<char>>)
    ensures
        r is Some <==> starts_with(line@, key@),
        r matches Some(rest) ==> rest@ == line@.skip(key@.len() as int),
{
    if key.len() > line.len() {
        return None;
    }
    for i in 0..key.len()
        invariant
            key.len() <= line.len(),
            forall|j: int| 0 <= j < i ==> line@[j] == key@[j],
    {
        if line[i] != key[i] {
            assert(line@.take(key@.len() as int)[i as int] != key@[i as int]);
            return None;
        }
    }
    assert(line@.take(key@.len() as int) =~= key@);
    let mut rest: Vec<char> = Vec::new();
    let mut i = key.len();
    while i < line.len()
        invariant
            key.len() <= i <= line.len(),
            rest@ == line@.subrange(key@.len() as int, i as int),
        decreases line.len() - i,
    {
        rest.push(line[i]);
        assert(rest@ =~= line@.subrange(key@.len() as int, i + 1));
        i = i + 1;
    }
    assert(rest@ =~= line@.skip(key@.len() as int));
    Some(rest)
}

/// The value of the last line of `ls` that starts with `key`.
fn find_last_value(ls: &Vec<Vec<char>>, key: &Vec<char>) -> (r: Option<Vec<char>>)
    ensures
        r matches Some(v) ==> last_value(char_vecs(ls@), key@) == Some(v@),
        r is None ==> last_value(char_vecs(ls@), key@) is None,
{
    let mut found: Option<Vec<char>> = None;
    for i in 0..ls.len()
        invariant
            found matches Some(v) ==> last_value(char_vecs(ls@).take(i as int), key@) == Some(
                v@,
            ),
            found is None ==> last_value(char_vecs(ls@).take(i as int), key@) is None,
    {
        let ghost prefix = char_vecs(ls@).take(i + 1);
        assert(prefix.drop_last() =~= char_vecs(ls@).take(i as int));
        assert(prefix.last() == ls@[i as int]@);
        match strip_prefix(&ls[i], key) {
            Some(rest) => {
                found = Some(rest);
            },
            None => {},
        }
    }
    assert(char_vecs(ls@).take(ls.len() as int) =~= char_vecs(ls@));
    found
}

/// Reads the distribution identifiers from the text of `/etc/os-release`.
pub fn parse_os_release(content: &str) -> (r: OsRelease)
    ensures
        r.distro_id@ == os_release_id(content@),
        strings(r.distro_like@) == os_release_like(content@),
{
    let text = chars_of(content);
    let ls = split_lines(text.as_slice());
    let id_key_exec: Vec<char> = vec!['I', 'D', '='];
    let like_key_exec: Vec<char> = vec!['I', 'D', '_', 'L', 'I', 'K', 'E', '='];
    assert(id_key_exec@ =~= id_key());
    assert(like_key_exec@ =~= id_like_key());
    let distro_id = match find_last_value(&ls, &id_key_exec) {
        Some(v) => {
            let t = trim_chars(v.as_slice(), false);
            lowercase_chars(t.as_slice())
        },
        None => String::new(),
    };
    let mut distro_like: Vec<String> = Vec::new();
    match find_last_value(&ls, &like_key_exec) {
        Some(v) => {
            let t = trim_chars(v.as_slice(), false);
            let ws = split_words(t.as_slice());
            let ghost expected = words(trim_quotes(v@)).map_values(
                |w: Seq<char>| lowercase_spec(w),
            );
            for i in 0..ws.len()
                invariant
                    char_vecs(ws@) == words(trim_quotes(v@)),
                    expected == words(trim_quotes(v@)).map_values(
                        |w: Seq<char>| lowercase_spec(w),
                    ),
                    strings(distro_like@) == expected.take(i as int),
            {
                let ghost before = distro_like@;
                let word = lowercase_chars(ws[i].as_slice());
                distro_like.push(word);
                assert(char_vecs(ws@)[i as int] == ws@[i as int]@);
                assert(strings(distro_like@) =~= strings(before).push(word@));
                assert(expected.take(i + 1) =~= expected.take(i as int).push(expected[i as int]));
            }
            assert(expected.take(ws.len() as int) =~= expected);
        },
        None => {
            assert(strings(distro_like@) =~= Seq::<Seq<char>>::empty());
        },
    }
    OsRelease { distro_id, distro_like }
}

} // verus!
