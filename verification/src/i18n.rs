//! UI texts, looked up by key in the table of a language file.
//!
//! A key that the table does not hold stands for itself, so that without a
//! language file the UI shows the (English) keys.

use std::collections::BTreeMap;

use vstd::prelude::*;

use crate::config;
use crate::config::strip_bom;
use crate::text::same_text;

verus! {

/// Supported languages.
#[derive(Debug, Clone, Copy, PartialEq, Eq, Structural)]
pub enum Lang {
    Zh,
    En,
}

/// File name of a language.
pub fn lang_file_name(l: Lang) -> (r: &'static str)
    ensures
        r@ == (match l {
            Lang::Zh => "zh.yml"@,
            Lang::En => "en.yml"@,
        }),
{
    match l {
        Lang::Zh => "zh.yml",
        Lang::En => "en.yml",
    }
}

/// The texts of the UI: the language, and its table once it is loaded.
pub struct Texts {
    pub current: Lang,
    pub table: Option<Vec<(String, String)>>,
}

/// A table of texts.
pub open spec fn pair_views(v: Seq<(String, String)>) -> Seq<(Seq<char>, Seq<char>)> {
    v.map_values(|e: (String, String)| (e.0@, e.1@))
}

/// The text that a table holds for a key.
pub open spec fn table_get(table: Seq<(Seq<char>, Seq<char>)>, key: Seq<char>) -> Option<Seq<char>>
    decreases table.len(),
{
    if table.len() == 0 {
        None
    } else if table[0].0 == key {
        Some(table[0].1)
    } else {
        table_get(table.drop_first(), key)
    }
}

impl Texts {
    /// The text for a key.
    pub open spec fn text(self, key: Seq<char>) -> Seq<char> {
        match self.table {
            Some(v) => match table_get(pair_views(v@), key) {
                Some(s) => s,
                None => key,
            },
            None => key,
        }
    }
}

/// No language file loaded.
pub fn no_texts() -> (r: Texts)
    ensures
        r.current == Lang::Zh,
        r.table is None,
{
    Texts { current: Lang::Zh, table: None }
}

/// Sets the language from the settings: "en" is English, all else Chinese.
pub fn set_lang(texts: &mut Texts, s: &str)
    ensures
        final(texts).current == (if s@ == "en"@ { Lang::En } else { Lang::Zh }),
        final(texts).table == old(texts).table,
{
    texts.current = if same_text(s, "en") { Lang::En } else { Lang::Zh };
}

/// The current language.
pub fn lang(texts: &Texts) -> (r: Lang)
    ensures
        r == texts.current,
{
    texts.current
}

/// The entries, ordered by key, that the text of a YAML file holds where it is
/// one flat mapping of texts to texts; else an error text.
pub uninterp spec fn yaml_table(content: Seq<char>) -> Result<
    Seq<(Seq<char>, Seq<char>)>,
    Seq<char>,
>;

/// Reads a YAML text with `serde_yml::from_str` into a map of texts to texts.
/// The outcome depends on the text alone. A map holds a key once, so the keys
/// of the entries differ. What YAML stands for which entries is not stated
/// beyond its name.
#[verifier::external_body]
fn read_yaml_table(content: &str) -> (r: Result<Vec<(String, String)>, String>)
    ensures
        match r {
            Ok(v) => yaml_table(content@) == Ok::<Seq<(Seq<char>, Seq<char>)>, Seq<char>>(
                pair_views(v@),
            ) && (forall|i: int, j: int|
                0 <= i < j < v@.len() ==> (#[trigger] v@[i]).0@ != (#[trigger] v@[j]).0@),
            Err(e) => yaml_table(content@) == Err::<Seq<(Seq<char>, Seq<char>)>, Seq<char>>(e@),
        },
{
    match serde_yml::from_str::<BTreeMap<String, String>>(content) {
        Ok(map) => Ok(map.into_iter().collect()),
        Err(e) => Err(format!("{}", e)),
    }
}

/// Takes in the table that was read from a language file. Only the first table
/// counts. Returns the number of entries, or the error text.
pub fn take_table(texts: &mut Texts, read: Result<Vec<(String, String)>, String>) -> (r: Result<
    usize,
    String,
>)
    ensures
        final(texts).current == old(texts).current,
        match read {
            Ok(v) => {
                &&& r matches Ok(n) && n == v@.len()
                &&& match old(texts).table {
                    Some(t) => final(texts).table == old(texts).table,
                    None => final(texts).table == Some(v),
                }
            },
            Err(e) => r matches Err(m) && m@ == e@ && final(texts).table == old(texts).table,
        },
{
    match read {
        Ok(v) => {
            let n: usize = v.len();
            if texts.table.is_none() {
                texts.table = Some(v);
            }
            Ok(n)
        },
        Err(e) => Err(e),
    }
}

/// Loads the table from the text of a language file, which may begin with a byte
/// order mark. Returns the number of entries, or the error text.
pub fn load_from_file(texts: &mut Texts, content: &str) -> (r: Result<usize, String>)
    ensures
        final(texts).current == old(texts).current,
        match yaml_table(config::without_bom(content@)) {
            Ok(t) => {
                &&& r matches Ok(n) && n == t.len()
                &&& match old(texts).table {
                    Some(x) => final(texts).table == old(texts).table,
                    None => final(texts).table matches Some(v) && pair_views(v@) == t,
                }
            },
            Err(e) => r matches Err(m) && m@ == e && final(texts).table == old(texts).table,
        },
{
    let plain: String = strip_bom(content);
    let read: Result<Vec<(String, String)>, String> = read_yaml_table(plain.as_str());
    take_table(texts, read)
}

/// The text for a UI key; the key itself where the table does not hold it.
pub fn t<'a>(texts: &'a Texts, key: &'a str) -> (r: &'a str)
    ensures
        r@ == texts.text(key@),
{
    match &texts.table {
        Some(v) => {
            let ghost all = pair_views(v@);
            assert(all.skip(0) =~= all);
            for i in 0..v.len()
                invariant
                    texts.table == Some(*v),
                    all == pair_views(v@),
                    table_get(all, key@) == table_get(all.skip(i as int), key@),
            {
                assert(all.skip(i as int)[0] == all[i as int]);
                assert(all.skip(i as int).drop_first() =~= all.skip(i + 1));
                if same_text(v[i].0.as_str(), key) {
                    return v[i].1.as_str();
                }
            }
            assert(all.skip(v@.len() as int) =~= Seq::<(Seq<char>, Seq<char>)>::empty());
            key
        },
        None => key,
    }
}

/// Without a table every key stands for itself, and so does a key that no entry
/// of the table has.
pub proof fn law_missing_keys_stand_for_themselves(texts: Texts, key: Seq<char>)
    ensures
        texts.table is None ==> texts.text(key) == key,
        match texts.table {
            Some(v) => (forall|i: int| 0 <= i < v@.len() ==> (#[trigger] v@[i]).0@ != key)
                ==> texts.text(key) == key,
            None => true,
        },
{
    if let Some(v) = texts.table {
        if forall|i: int| 0 <= i < v@.len() ==> (#[trigger] v@[i]).0@ != key {
            let s = pair_views(v@);
            assert forall|i: int| 0 <= i < s.len() implies (#[trigger] s[i]).0 != key by {
                assert(v@[i].0@ != key);
            }
            lemma_table_misses(s, key);
        }
    }
}

proof fn lemma_table_misses(s: Seq<(Seq<char>, Seq<char>)>, key: Seq<char>)
    requires
        forall|i: int| 0 <= i < s.len() ==> (#[trigger] s[i]).0 != key,
    ensures
        table_get(s, key) is None,
    decreases s.len(),
{
    if s.len() > 0 {
        assert(s[0].0 != key);
        let r = s.drop_first();
        assert forall|i: int| 0 <= i < r.len() implies (#[trigger] r[i]).0 != key by {
            assert(r[i] == s[i + 1]);
        }
        lemma_table_misses(r, key);
    }
}

/// A key that the table has stands for the text of its first entry.
pub proof fn law_keys_stand_for_their_texts(texts: Texts, v: Vec<(String, String)>, i: int)
    requires
        texts.table == Some(v),
        0 <= i < v@.len(),
        forall|j: int| 0 <= j < i ==> (#[trigger] v@[j]).0@ != v@[i].0@,
    ensures
        texts.text(v@[i].0@) == v@[i].1@,
{
    let s = pair_views(v@);
    assert forall|j: int| 0 <= j < i implies (#[trigger] s[j]).0 != s[i].0 by {
        assert(v@[j].0@ != v@[i].0@);
    }
    lemma_table_has(s, i);
}

proof fn lemma_table_has(s: Seq<(Seq<char>, Seq<char>)>, i: int)
    requires
        0 <= i < s.len(),
        forall|j: int| 0 <= j < i ==> (#[trigger] s[j]).0 != s[i].0,
    ensures
        table_get(s, s[i].0) == Some(s[i].1),
    decreases s.len(),
{
    if i > 0 {
        let t = s.drop_first();
        assert(s[0].0 != s[i].0);
        assert forall|j: int| 0 <= j < i - 1 implies (#[trigger] t[j]).0 != t[i - 1].0 by {
            assert(s[j + 1].0 != s[i].0);
        }
        lemma_table_has(t, i - 1);
    }
}

} // verus!
