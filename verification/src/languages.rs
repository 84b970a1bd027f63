//! The language registry: each language's name, recognized file
//! extensions, and display color, plus extension-based classification.

use vstd::prelude::*;
use crate::paths::{extract_extension, path_extension};
use crate::text::eq_str;

verus! {

/// A programming language as the registry knows it: a unique name, the
/// ordered set of file extensions it claims (lower-case, no leading dot),
/// and a `#rrggbb` display color.
#[derive(Debug, Clone, PartialEq, Eq)]
pub struct Language {
    pub extensions: Vec<String>,
    pub name: String,
    pub color: String,
}

/// The mathematical image of a [`Language`].
pub struct LanguageV {
    pub extensions: Seq<Seq<char>>,
    pub name: Seq<char>,
    pub color: Seq<char>,
}

impl View for Language {
    type V = LanguageV;

    open spec fn view(&self) -> LanguageV {
        LanguageV {
            extensions: self.extensions.deep_view(),
            name: self.name@,
            color: self.color@,
        }
    }
}

impl DeepView for Language {
    type V = LanguageV;

    open spec fn deep_view(&self) -> LanguageV {
        self.view()
    }
}

impl Language {
    /// Builds a registry entry from borrowed parts.
    pub fn new(name: &str, extensions: Vec<&str>, color: &str) -> (result: Language)
        ensures
            result@ == (LanguageV {
                extensions: extensions.deep_view(),
                name: name@,
                color: color@,
            }),
    {
        let mut owned: Vec<String> = Vec::new();
        let n = extensions.len();
        for i in 0..n
            invariant
                n == extensions@.len(),
                owned@.len() == i,
                forall|k: int| 0 <= k < i ==> owned@[k]@ == extensions@[k]@,
        {
            owned.push(String::from_str(extensions[i]));
        }
        proof {
            assert(owned.deep_view() =~= extensions.deep_view());
        }
        Language { extensions: owned, name: String::from_str(name), color: String::from_str(color) }
    }
}

/// The fixed registry, as a mathematical value. Declaration order resolves
/// an extension claimed by two entries: the first match wins.
pub open spec fn registry_spec() -> Seq<LanguageV> {
    seq![
        (LanguageV { name: "Typescript"@, extensions: seq!["ts"@, "tsx"@], color: "#7f0000"@ }),
        (LanguageV { name: "Javascript"@, extensions: seq!["js"@, "jsx"@], color: "#696969"@ }),
        (LanguageV { name: "Swift"@, extensions: seq!["swift"@], color: "#808000"@ }),
        (LanguageV { name: "Objective-C"@, extensions: seq!["h"@, "m"@], color: "#3cb371"@ }),
        (LanguageV { name: "Shell"@, extensions: seq!["sh"@, "zsh"@], color: "#00008b"@ }),
        (LanguageV { name: "C#"@, extensions: seq!["cs"@, "cake"@], color: "#ff0000"@ }),
        (LanguageV { name: "Java"@, extensions: seq!["java"@], color: "#ff8c00"@ }),
        (LanguageV { name: "Kotlin"@, extensions: seq!["kt"@], color: "#ffd700"@ }),
        (LanguageV { name: "Rust"@, extensions: seq!["rs"@], color: "#ba55d3"@ }),
        (LanguageV { name: "Go"@, extensions: seq!["go"@], color: "#00ff7f"@ }),
        (LanguageV { name: "Ruby"@, extensions: seq!["rb"@], color: "#e9967a"@ }),
        (LanguageV { name: "Python"@, extensions: seq!["py"@], color: "#00ffff"@ }),
        (LanguageV { name: "C"@, extensions: seq!["c"@], color: "#eee8aa"@ }),
        (LanguageV { name: "HTML"@, extensions: seq!["html"@, "htm"@, "xhtml"@], color: "#adff2f"@ }),
        (LanguageV { name: "CSS"@, extensions: seq!["css"@, "sass"@, "scss"@], color: "#ff00ff"@ }),
        (LanguageV { name: "SQL"@, extensions: seq!["sql"@], color: "#ff1493"@ }),
    ]
}

fn exts1(a: &str) -> (r: Vec<&str>)
    ensures
        r.deep_view() == seq![a@],
{
    let mut v: Vec<&str> = Vec::new();
    v.push(a);
    proof {
        assert(v.deep_view() =~= seq![a@]);
    }
    v
}

fn exts2<'a>(a: &'a str, b: &'a str) -> (r: Vec<&'a str>)
    ensures
        r.deep_view() == seq![a@, b@],
{
    let mut v: Vec<&str> = Vec::new();
    v.push(a);
    v.push(b);
    proof {
        assert(v.deep_view() =~= seq![a@, b@]);
    }
    v
}

fn exts3<'a>(a: &'a str, b: &'a str, c: &'a str) -> (r: Vec<&'a str>)
    ensures
        r.deep_view() == seq![a@, b@, c@],
{
    let mut v: Vec<&str> = Vec::new();
    v.push(a);
    v.push(b);
    v.push(c);
    proof {
        assert(v.deep_view() =~= seq![a@, b@, c@]);
    }
    v
}

/// The language registry, initialized once at startup and read-only
/// thereafter.
pub fn get_extensions() -> (r: Vec<Language>)
    ensures
        r.deep_view() == registry_spec(),
{
    let mut r: Vec<Language> = Vec::new();
    r.push(Language::new("Typescript", exts2("ts", "tsx"), "#7f0000"));
    r.push(Language::new("Javascript", exts2("js", "jsx"), "#696969"));
    r.push(Language::new("Swift", exts1("swift"), "#808000"));
    r.push(Language::new("Objective-C", exts2("h", "m"), "#3cb371"));
    r.push(Language::new("Shell", exts2("sh", "zsh"), "#00008b"));
    r.push(Language::new("C#", exts2("cs", "cake"), "#ff0000"));
    r.push(Language::new("Java", exts1("java"), "#ff8c00"));
    r.push(Language::new("Kotlin", exts1("kt"), "#ffd700"));
    r.push(Language::new("Rust", exts1("rs"), "#ba55d3"));
    r.push(Language::new("Go", exts1("go"), "#00ff7f"));
    r.push(Language::new("Ruby", exts1("rb"), "#e9967a"));
    r.push(Language::new("Python", exts1("py"), "#00ffff"));
    r.push(Language::new("C", exts1("c"), "#eee8aa"));
    r.push(Language::new("HTML", exts3("html", "htm", "xhtml"), "#adff2f"));
    r.push(Language::new("CSS", exts3("css", "sass", "scss"), "#ff00ff"));
    r.push(Language::new("SQL", exts1("sql"), "#ff1493"));
    proof {
        assert(r.deep_view() =~= registry_spec());
    }
    r
}

/// The first registry index, from `k` on, whose extension set contains
/// `ext`; `None` when no entry claims it.
pub open spec fn classify_from(langs: Seq<LanguageV>, ext: Seq<char>, k: int) -> Option<int>
    decreases langs.len() - k,
{
    if k < 0 || k >= langs.len() {
        None
    } else if langs[k].extensions.contains(ext) {
        Some(k)
    } else {
        classify_from(langs, ext, k + 1)
    }
}

/// The registry index of the first entry claiming `ext`, if any.
pub open spec fn classify_spec(langs: Seq<LanguageV>, ext: Seq<char>) -> Option<int> {
    classify_from(langs, ext, 0)
}

fn has_extension(lang: &Language, ext: &str) -> (r: bool)
    ensures
        r == lang@.extensions.contains(ext@),
{
    let n = lang.extensions.len();
    for j in 0..n
        invariant
            n == lang.extensions@.len(),
            forall|k: int| 0 <= k < j ==> lang@.extensions[k] != ext@,
    {
        if eq_str(lang.extensions[j].as_str(), ext) {
            assert(lang@.extensions[j as int] == ext@);
            return true;
        }
    }
    assert(forall|k: int| 0 <= k < lang@.extensions.len() ==> lang@.extensions[k] != ext@);
    false
}

/// Finds the first registry entry whose extension set contains `ext`.
pub fn classify(languages: &Vec<Language>, ext: &str) -> (r: Option<usize>)
    ensures
        r is None ==> classify_spec(languages.deep_view(), ext@) is None,
        r matches Some(i) ==> i < languages.len() && classify_spec(languages.deep_view(), ext@)
            == Some(i as int),
{
    let ghost langs = languages.deep_view();
    let n = languages.len();
    for i in 0..n
        invariant
            n == languages@.len(),
            langs == languages.deep_view(),
            classify_from(langs, ext@, 0) == classify_from(langs, ext@, i as int),
    {
        if has_extension(&languages[i], ext) {
            assert(langs[i as int] == languages@[i as int]@);
            return Some(i);
        }
        assert(langs[i as int] == languages@[i as int]@);
    }
    None
}

/// The registry index of the language a file belongs to, judged by the
/// extension of its path; `None` when the path has no extension or no
/// entry claims it.
pub open spec fn filetype_spec(langs: Seq<LanguageV>, p: Seq<char>) -> Option<int> {
    match path_extension(p) {
        None => None,
        Some(e) => classify_spec(langs, e),
    }
}

/// Figures out which language a file is, from its path alone.
pub fn extract_filetype(path: &str, languages: &Vec<Language>) -> (r: Option<usize>)
    ensures
        r is None ==> filetype_spec(languages.deep_view(), path@) is None,
        r matches Some(i) ==> i < languages.len() && filetype_spec(languages.deep_view(), path@)
            == Some(i as int),
{
    match extract_extension(path) {
        None => None,
        Some(e) => classify(languages, e),
    }
}

} // verus!
