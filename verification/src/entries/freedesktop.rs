//! Parsing of freedesktop entries for app launching.

use vstd::prelude::*;
use crate::entries::{Entry, EntryModel, opt_view};
use crate::path::{join_path, path_join, has_extension, path_extension};
use crate::string_map::{
    StringMap, index_of_key, insert_entry, keys_distinct, lemma_index_of_key,
    lemma_insert_keeps_distinct, lemma_insert_lookup_other, lemma_insert_lookup_same,
    lemma_insert_map_values, lookup, map_entry_values,
};
use crate::text::{
    Separator, clean_piece, is_separator, lemma_split_pieces_clean, contains_chars, contains_sub, first_piece, first_piece_of, spec_to_lowercase,
    split_pieces, split_str, str_eq, string_views, strip_bom, to_chars, to_lowercase, without_bom,
};

verus! {

/// The key-value pairs of an INI section, as character sequences.
pub open spec fn pairs_view(v: Seq<(String, String)>) -> Seq<(Seq<char>, Seq<char>)> {
    v.map_values(|p: (String, String)| (p.0@, p.1@))
}

/// The properties of the first section called `section` in the INI text,
/// as `rust-ini` parses it with its default options, in its iteration
/// order; `None` when the text does not parse or has no such section.
pub uninterp spec fn spec_ini_section(text: Seq<char>, section: Seq<char>) -> Option<
    Seq<(Seq<char>, Seq<char>)>,
>;

/// `ini::Ini::load_from_str`, then `Ini::section` and `Properties::iter`.
/// Claimed: the pairs returned are the named section of the text. The
/// grammar of INI files is not stated.
#[verifier::external_body]
fn ini_section(text: &str, section: &str) -> (r: Option<Vec<(String, String)>>)
    ensures
        r matches Some(v) ==> spec_ini_section(text@, section@) == Some(pairs_view(v@)),
        r is None ==> spec_ini_section(text@, section@) is None,
{
    let ini = ini::Ini::load_from_str(text).ok()?;
    let props = ini.section(Some(section))?;
    Some(props.iter().map(|(k, v)| (k.to_string(), v.to_string())).collect())
}

/// `sys_locale::get_locale`: the user's preferred locale, as a BCP 47 tag.
/// It depends on the environment; nothing is claimed of it.
#[verifier::external_body]
fn system_locale() -> (r: Option<String>) {
    sys_locale::get_locale()
}

/// The value of a property: `Properties::get` gives the first value stored
/// under the key.
pub fn get_property(props: &Vec<(String, String)>, key: &str) -> (r: Option<String>)
    ensures
        opt_view(r) == lookup(pairs_view(props@), key@),
{
    let ghost e = pairs_view(props@);
    proof {
        lemma_index_of_key(e, key@);
    }
    let mut i: usize = 0;
    while i < props.len()
        invariant
            i <= props.len(),
            e == pairs_view(props@),
            forall|j: int| 0 <= j < i ==> e[j].0 != key@,
        decreases props.len() - i,
    {
        if str_eq(props[i].0.as_str(), key) {
            proof {
                lemma_index_of_key(e, key@);
                let r = index_of_key(e, key@);
                if r < 0 {
                    assert(e[i as int].0 != key@);
                } else if r < i {
                    assert(e[r].0 == key@);
                } else if r > i {
                    assert(e[i as int].0 != key@);
                }
            }
            return Some(props[i].1.clone());
        }
        i = i + 1;
    }
    None
}

/// The model of a parser: the localized keys it reads and the desktop
/// environment it checks visibility against.
pub struct ParserModel {
    pub name_key: Option<Seq<char>>,
    pub comment_key: Option<Seq<char>>,
    pub keywords_key: Option<Seq<char>>,
    pub desktop: Option<Seq<char>>,
}

/// A localized key, such as `Name[fr]`.
pub open spec fn locale_key(field: Seq<char>, code: Seq<char>) -> Seq<char> {
    field + seq!['['] + code + seq![']']
}

/// The parser for a locale tag and a desktop environment: the keys use the
/// language code (what comes before the first `-` of the tag), and the
/// desktop environment is compared in lower case.
pub open spec fn parser_for(locale: Option<Seq<char>>, desktop: Option<Seq<char>>) -> ParserModel {
    match locale {
        Some(l) => ParserModel {
            name_key: Some(locale_key("Name"@, first_piece(l, '-'))),
            comment_key: Some(locale_key("Comment"@, first_piece(l, '-'))),
            keywords_key: Some(locale_key("Keywords"@, first_piece(l, '-'))),
            desktop: match desktop {
                Some(d) => Some(spec_to_lowercase(d)),
                None => None,
            },
        },
        None => ParserModel {
            name_key: None,
            comment_key: None,
            keywords_key: None,
            desktop: match desktop {
                Some(d) => Some(spec_to_lowercase(d)),
                None => None,
            },
        },
    }
}

/// Whether a desktop entry is shown: not when `NoDisplay` is `true`, nor
/// when `NotShowIn` names the desktop environment (by substring, in lower
/// case). `OnlyShowIn` does not hide an entry.
pub open spec fn shown(p: ParserModel, props: Seq<(Seq<char>, Seq<char>)>) -> bool {
    &&& lookup(props, "NoDisplay"@) != Some("true"@)
    &&& !(match p.desktop {
        Some(de) => match lookup(props, "NotShowIn"@) {
            Some(v) => contains_sub(spec_to_lowercase(v), de),
            None => false,
        },
        None => false,
    })
}

/// The localized value of a field, else the plain one.
pub open spec fn localized(
    props: Seq<(Seq<char>, Seq<char>)>,
    key: Option<Seq<char>>,
    fallback: Seq<char>,
) -> Option<Seq<char>> {
    match key {
        Some(k) => match lookup(props, k) {
            Some(v) => Some(v),
            None => lookup(props, fallback),
        },
        None => lookup(props, fallback),
    }
}

/// The entry of a `Desktop Entry` section: none when it is hidden, or lacks
/// `Exec` or a name; the keywords are the non-empty pieces between `;`.
pub open spec fn entry_of_section(p: ParserModel, props: Seq<(Seq<char>, Seq<char>)>) -> Option<
    EntryModel,
> {
    if !shown(p, props) {
        None
    } else {
        match (lookup(props, "Exec"@), localized(props, p.name_key, "Name"@)) {
            (Some(command), Some(name)) => Some(
                EntryModel {
                    name,
                    command,
                    icon: lookup(props, "Icon"@),
                    comment: localized(props, p.comment_key, "Comment"@),
                    keywords: match localized(props, p.keywords_key, "Keywords"@) {
                        Some(k) => Some(split_pieces(k, Separator::Char(';'), false)),
                        None => None,
                    },
                    terminal: lookup(props, "Terminal"@) == Some("true"@),
                },
            ),
            _ => None,
        }
    }
}

/// The entry of a desktop file's text (a leading byte order mark is
/// dropped, as when the file is loaded by `rust-ini`).
pub open spec fn entry_of_file(p: ParserModel, text: Seq<char>) -> Option<EntryModel> {
    match spec_ini_section(without_bom(text), "Desktop Entry"@) {
        Some(props) => entry_of_section(p, props),
        None => None,
    }
}

/// The model of an optional entry.
pub open spec fn opt_entry_view(e: Option<Entry>) -> Option<EntryModel> {
    match e {
        Some(x) => Some(x@),
        None => None,
    }
}

/// Parser of freedesktop desktop files.
pub struct FreedesktopParser {
    /// Precomputed key for the locale name.
    pub locale_name_key: Option<String>,
    /// Precomputed key for the locale comment.
    pub locale_comment_key: Option<String>,
    /// Precomputed key for the locale keywords.
    pub locale_keywords_key: Option<String>,
    /// Desktop environment (to be checked against `NotShowIn`), in lower case.
    pub desktop_environment: Option<String>,
}

impl View for FreedesktopParser {
    type V = ParserModel;

    open spec fn view(&self) -> ParserModel {
        ParserModel {
            name_key: opt_view(self.locale_name_key),
            comment_key: opt_view(self.locale_comment_key),
            keywords_key: opt_view(self.locale_keywords_key),
            desktop: opt_view(self.desktop_environment),
        }
    }
}

fn make_locale_key(field: &str, code: &String) -> (r: String)
    ensures
        r@ == locale_key(field@, code@),
{
    let mut r = String::from_str(field);
    r.append("[");
    r.append(code.as_str());
    r.append("]");
    proof {
        reveal_strlit("[");
        reveal_strlit("]");
    }
    r
}

impl FreedesktopParser {
    /// The parser for a locale tag and the desktop environment
    /// (`$XDG_CURRENT_DESKTOP`).
    pub fn with_locale(locale: Option<String>, desktop_environment: Option<String>) -> (r: Self)
        ensures
            r@ == parser_for(opt_view(locale), opt_view(desktop_environment)),
    {
        let desktop = match desktop_environment {
            Some(d) => Some(to_lowercase(d.as_str())),
            None => None,
        };
        match locale {
            Some(l) => {
                let code = first_piece_of(l.as_str(), '-');
                FreedesktopParser {
                    locale_name_key: Some(make_locale_key("Name", &code)),
                    locale_comment_key: Some(make_locale_key("Comment", &code)),
                    locale_keywords_key: Some(make_locale_key("Keywords", &code)),
                    desktop_environment: desktop,
                }
            },
            None => FreedesktopParser {
                locale_name_key: None,
                locale_comment_key: None,
                locale_keywords_key: None,
                desktop_environment: desktop,
            },
        }
    }

    /// The parser for the system's locale and the given desktop environment.
    pub fn new(desktop_environment: Option<String>) -> (r: Self)
        ensures
            exists|l: Option<Seq<char>>| r@ == parser_for(l, opt_view(desktop_environment)),
    {
        let locale = system_locale();
        let r = Self::with_locale(locale, desktop_environment);
        assert(r@ == parser_for(opt_view(locale), opt_view(desktop_environment)));
        r
    }

    /// Check whether an entry should be shown or not.
    pub fn show(&self, entry: &Vec<(String, String)>) -> (r: bool)
        ensures
            r == shown(self@, pairs_view(entry@)),
    {
        let no_display = get_property(entry, "NoDisplay");
        match no_display {
            Some(v) => {
                if str_eq(v.as_str(), "true") {
                    return false;
                }
            },
            None => {},
        }
        match &self.desktop_environment {
            Some(de) => {
                match get_property(entry, "NotShowIn") {
                    Some(v) => {
                        let lower = to_lowercase(v.as_str());
                        let hay = to_chars(lower.as_str());
                        let needle = to_chars(de.as_str());
                        if contains_chars(&hay, &needle) {
                            return false;
                        }
                    },
                    None => {},
                }
            },
            None => {},
        }
        true
    }

    /// The localized value of a field, else the plain one.
    fn localized_property(props: &Vec<(String, String)>, key: &Option<String>, fallback: &str) -> (r:
        Option<String>)
        ensures
            opt_view(r) == localized(pairs_view(props@), opt_view(*key), fallback@),
    {
        match key {
            Some(k) => match get_property(props, k.as_str()) {
                Some(v) => Some(v),
                None => get_property(props, fallback),
            },
            None => get_property(props, fallback),
        }
    }

    /// The entry of a `Desktop Entry` section.
    pub fn parse_section(&self, section: &Vec<(String, String)>) -> (r: Option<Entry>)
        ensures
            opt_entry_view(r) == entry_of_section(self@, pairs_view(section@)),
    {
        if !self.show(section) {
            return None;
        }
        let terminal = match get_property(section, "Terminal") {
            Some(v) => str_eq(v.as_str(), "true"),
            None => false,
        };
        let icon = get_property(section, "Icon");
        let command = match get_property(section, "Exec") {
            Some(c) => c,
            None => return None,
        };
        let name = match Self::localized_property(section, &self.locale_name_key, "Name") {
            Some(n) => n,
            None => return None,
        };
        let comment = Self::localized_property(section, &self.locale_comment_key, "Comment");
        let keywords = match Self::localized_property(
            section,
            &self.locale_keywords_key,
            "Keywords",
        ) {
            Some(k) => Some(split_str(k.as_str(), Separator::Char(';'), false)),
            None => None,
        };
        Some(Entry { name, command, icon, comment, keywords, terminal })
    }

    /// Parse the text of a freedesktop file into a launcher entry.
    pub fn parse(&self, contents: &str) -> (r: Option<Entry>)
        ensures
            opt_entry_view(r) == entry_of_file(self@, contents@),
    {
        let text = strip_bom(contents);
        match ini_section(text.as_str(), "Desktop Entry") {
            Some(section) => self.parse_section(&section),
            None => None,
        }
    }
}

/// The view of an entry, as a function.
pub open spec fn entry_view_fn() -> spec_fn(Entry) -> EntryModel {
    |e: Entry| e@
}

/// Reads desktop files in order into entries keyed by name: a file that
/// gives an entry replaces the entry of the same name read before.
pub open spec fn collect_into(
    p: ParserModel,
    acc: Seq<(Seq<char>, EntryModel)>,
    files: Seq<Seq<char>>,
) -> Seq<(Seq<char>, EntryModel)>
    decreases files.len(),
{
    if files.len() == 0 {
        acc
    } else {
        let before = collect_into(p, acc, files.drop_last());
        match entry_of_file(p, files.last()) {
            Some(e) => insert_entry(before, e.name, e),
            None => before,
        }
    }
}

impl FreedesktopParser {
    /// Adds the entries of desktop files (their texts, in the order the
    /// files are read), keyed by name.
    pub fn add_entries(&self, entries: &mut StringMap<Entry>, files: &Vec<String>)
        ensures
            map_entry_values(final(entries).entries(), entry_view_fn()) == collect_into(
                self@,
                map_entry_values(old(entries).entries(), entry_view_fn()),
                string_views(files@),
            ),
    {
        let ghost start = map_entry_values(entries.entries(), entry_view_fn());
        let mut i: usize = 0;
        assert(string_views(files@).take(0) =~= Seq::<Seq<char>>::empty());
        while i < files.len()
            invariant
                i <= files.len(),
                map_entry_values(entries.entries(), entry_view_fn()) == collect_into(
                    self@,
                    start,
                    string_views(files@).take(i as int),
                ),
            decreases files.len() - i,
        {
            let ghost fs = string_views(files@).take(i + 1);
            assert(fs.drop_last() =~= string_views(files@).take(i as int));
            assert(fs.last() == files@[i as int]@);
            match self.parse(files[i].as_str()) {
                Some(e) => {
                    let ghost ev = e@;
                    let ghost before = entries.entries();
                    let name = e.name.clone();
                    entries.insert(name, e);
                    proof {
                        lemma_insert_map_values(before, ev.name, e, entry_view_fn());
                    }
                },
                None => {},
            }
            i = i + 1;
        }
        assert(string_views(files@).take(i as int) =~= string_views(files@));
    }

    /// The entries of desktop files (their texts, in the order the files are
    /// read), one per name: the last file read that gives an entry of that
    /// name.
    pub fn entries_from_files(&self, files: &Vec<String>) -> (r: Vec<Entry>)
        ensures
            r@.map_values(entry_view_fn()) == collect_into(
                self@,
                seq![],
                string_views(files@),
            ).map_values(|pr: (Seq<char>, EntryModel)| pr.1),
    {
        let mut map: StringMap<Entry> = StringMap::new();
        assert(map_entry_values(map.entries(), entry_view_fn()) =~= Seq::<
            (Seq<char>, EntryModel),
        >::empty());
        self.add_entries(&mut map, files);
        let ghost m = map.entries();
        let r = map.into_values();
        assert(r@.map_values(entry_view_fn()) =~= map_entry_values(m, entry_view_fn()).map_values(
            |pr: (Seq<char>, EntryModel)| pr.1,
        ));
        r
    }

    /// The entries of the desktop files of several directories, added
    /// directory after directory into the same entries keyed by name (each
    /// directory given by the texts of its files, in the order they are
    /// read): one per name, the last file read that gives an entry of that
    /// name, so a later directory's entry replaces an earlier one's.
    pub fn entries_from_dirs(&self, dirs: &Vec<Vec<String>>) -> (r: Vec<Entry>)
        ensures
            r@.map_values(entry_view_fn()) == collect_dirs(
                self@,
                seq![],
                dirs@.map_values(|d: Vec<String>| string_views(d@)),
            ).map_values(|pr: (Seq<char>, EntryModel)| pr.1),
            r@.map_values(entry_view_fn()) == collect_into(
                self@,
                seq![],
                dirs@.map_values(|d: Vec<String>| string_views(d@)).flatten(),
            ).map_values(|pr: (Seq<char>, EntryModel)| pr.1),
    {
        let ghost ds = dirs@.map_values(|d: Vec<String>| string_views(d@));
        let mut map: StringMap<Entry> = StringMap::new();
        assert(map_entry_values(map.entries(), entry_view_fn()) =~= Seq::<
            (Seq<char>, EntryModel),
        >::empty());
        let mut i: usize = 0;
        assert(ds.take(0) =~= Seq::<Seq<Seq<char>>>::empty());
        while i < dirs.len()
            invariant
                i <= dirs.len(),
                ds == dirs@.map_values(|d: Vec<String>| string_views(d@)),
                map_entry_values(map.entries(), entry_view_fn()) == collect_dirs(
                    self@,
                    seq![],
                    ds.take(i as int),
                ),
            decreases dirs.len() - i,
        {
            self.add_entries(&mut map, &dirs[i]);
            assert(ds.take(i + 1).drop_last() =~= ds.take(i as int));
            assert(ds.take(i + 1).last() == string_views(dirs@[i as int]@));
            i = i + 1;
        }
        assert(ds.take(i as int) =~= ds);
        proof {
            lemma_collect_dirs(self@, seq![], ds);
        }
        let ghost m = map.entries();
        let r = map.into_values();
        assert(r@.map_values(entry_view_fn()) =~= map_entry_values(m, entry_view_fn()).map_values(
            |pr: (Seq<char>, EntryModel)| pr.1,
        ));
        r
    }
}

/// A parsed entry runs in a terminal exactly when the section's `Terminal`
/// value is `true`: a section without a `Terminal` key, or with any other
/// value, gives an entry that does not. Its command is the `Exec` value and
/// its icon the `Icon` value.
pub proof fn lemma_section_terminal(p: ParserModel, props: Seq<(Seq<char>, Seq<char>)>)
    ensures
        entry_of_section(p, props) matches Some(e) ==> (e.terminal <==> lookup(
            props,
            "Terminal"@,
        ) == Some(seq!['t', 'r', 'u', 'e'])),
        lookup(props, "Terminal"@) is None ==> (entry_of_section(p, props) matches Some(e)
            ==> !e.terminal),
        entry_of_section(p, props) matches Some(e) ==> Some(e.command) == lookup(props, "Exec"@)
            && e.icon == lookup(props, "Icon"@),
{
    reveal_strlit("true");
    assert("true"@ =~= seq!['t', 'r', 'u', 'e']);
}

/// What a shown section gives: an entry exactly when it has an `Exec` value
/// and a name. The name is the value of the locale's `Name[..]` key when the
/// section has one, else the `Name` value; the comment likewise from
/// `Comment[..]` or `Comment`; and each keyword is a non-empty piece of the
/// keywords value that holds no `;`.
pub proof fn lemma_section_fields(p: ParserModel, props: Seq<(Seq<char>, Seq<char>)>)
    ensures
        shown(p, props) && lookup(props, "Exec"@) is Some && (lookup(props, "Name"@) is Some || (
        p.name_key matches Some(k) && lookup(props, k) is Some)) ==> entry_of_section(p, props)
            is Some,
        lookup(props, "Exec"@) is None ==> entry_of_section(p, props) is None,
        entry_of_section(p, props) is Some && p.name_key is Some && lookup(
            props,
            p.name_key.unwrap(),
        ) is Some ==> entry_of_section(p, props).unwrap().name == lookup(
            props,
            p.name_key.unwrap(),
        ).unwrap(),
        entry_of_section(p, props) matches Some(e) ==> (p.name_key matches Some(k) && lookup(
            props,
            k,
        ) is Some) || Some(e.name) == lookup(props, "Name"@),
        entry_of_section(p, props) is Some && p.comment_key is Some && lookup(
            props,
            p.comment_key.unwrap(),
        ) is Some ==> entry_of_section(p, props).unwrap().comment == lookup(
            props,
            p.comment_key.unwrap(),
        ),
        entry_of_section(p, props) matches Some(e) ==> (p.comment_key matches Some(k) && lookup(
            props,
            k,
        ) is Some) || e.comment == lookup(props, "Comment"@),
        entry_of_section(p, props) matches Some(e) ==> (e.keywords matches Some(ks) ==> forall|
            j: int,
        | 0 <= j < ks.len() ==> (#[trigger] ks[j]).len() > 0 && !ks[j].contains(';')),
{
    match localized(props, p.keywords_key, "Keywords"@) {
        Some(k) => {
            lemma_split_pieces_clean(k, Separator::Char(';'), false);
            let ks = split_pieces(k, Separator::Char(';'), false);
            assert forall|j: int| 0 <= j < ks.len() implies (#[trigger] ks[j]).len() > 0
                && !ks[j].contains(';') by {
                assert(clean_piece(ks[j], Separator::Char(';'), false));
                if ks[j].contains(';') {
                    let i = choose|i: int| 0 <= i < ks[j].len() && ks[j][i] == ';';
                    assert(!is_separator(Separator::Char(';'), ks[j][i]));
                }
            }
        },
        None => {},
    }
}

/// An entry with `NoDisplay=true` is not shown.
pub proof fn lemma_no_display_hides(p: ParserModel, props: Seq<(Seq<char>, Seq<char>)>)
    requires
        lookup(props, "NoDisplay"@) == Some("true"@),
    ensures
        entry_of_section(p, props) is None,
{
}

/// An entry whose `NotShowIn` names the desktop environment is not shown.
pub proof fn lemma_not_show_in_hides(p: ParserModel, props: Seq<(Seq<char>, Seq<char>)>, v: Seq<char>)
    requires
        p.desktop matches Some(de) && lookup(props, "NotShowIn"@) == Some(v) && contains_sub(
            spec_to_lowercase(v),
            de,
        ),
    ensures
        entry_of_section(p, props) is None,
{
}

/// Entries keyed by their own names, each name once.
pub open spec fn keyed_by_name(acc: Seq<(Seq<char>, EntryModel)>) -> bool {
    &&& keys_distinct(acc)
    &&& forall|i: int| 0 <= i < acc.len() ==> (#[trigger] acc[i]).1.name == acc[i].0
}

/// Reading desktop files keeps one entry per name, keyed by that name.
pub proof fn lemma_collect_keyed_by_name(
    p: ParserModel,
    acc: Seq<(Seq<char>, EntryModel)>,
    files: Seq<Seq<char>>,
)
    requires
        keyed_by_name(acc),
    ensures
        keyed_by_name(collect_into(p, acc, files)),
    decreases files.len(),
{
    if files.len() > 0 {
        let before = collect_into(p, acc, files.drop_last());
        lemma_collect_keyed_by_name(p, acc, files.drop_last());
        match entry_of_file(p, files.last()) {
            Some(e) => {
                lemma_insert_keeps_distinct(before, e.name, e);
                lemma_index_of_key(before, e.name);
                let r = insert_entry(before, e.name, e);
                assert forall|i: int| 0 <= i < r.len() implies (#[trigger] r[i]).1.name
                    == r[i].0 by {
                    if i < before.len() && i != index_of_key(before, e.name) {
                        assert(r[i] == before[i]);
                    }
                }
            },
            None => {},
        }
    }
}

/// The last file read decides the entry of its name; the entries of other
/// names stay as they were.
pub proof fn lemma_collect_last_file_wins(
    p: ParserModel,
    acc: Seq<(Seq<char>, EntryModel)>,
    files: Seq<Seq<char>>,
    f: Seq<char>,
    other: Seq<char>,
)
    ensures
        entry_of_file(p, f) matches Some(e) ==> lookup(collect_into(p, acc, files.push(f)), e.name)
            == Some(e),
        entry_of_file(p, f) matches Some(e) && other != e.name ==> lookup(
            collect_into(p, acc, files.push(f)),
            other,
        ) == lookup(collect_into(p, acc, files), other),
        entry_of_file(p, f) is None ==> collect_into(p, acc, files.push(f)) == collect_into(
            p,
            acc,
            files,
        ),
{
    assert(files.push(f).drop_last() =~= files);
    let before = collect_into(p, acc, files);
    match entry_of_file(p, f) {
        Some(e) => {
            lemma_insert_lookup_same(before, e.name, e);
            if other != e.name {
                lemma_insert_lookup_other(before, e.name, e, other);
            }
        },
        None => {},
    }
}

/// Reading two batches of files in turn into the same entries gives what
/// one pass over both batches, in order, gives.
pub proof fn lemma_collect_concat(
    p: ParserModel,
    acc: Seq<(Seq<char>, EntryModel)>,
    a: Seq<Seq<char>>,
    b: Seq<Seq<char>>,
)
    ensures
        collect_into(p, acc, a + b) == collect_into(p, collect_into(p, acc, a), b),
    decreases b.len(),
{
    if b.len() == 0 {
        assert(a + b =~= a);
    } else {
        lemma_collect_concat(p, acc, a, b.drop_last());
        assert((a + b).drop_last() =~= a + b.drop_last());
        assert((a + b).last() == b.last());
    }
}

/// Reads the desktop files of several directories into the same entries,
/// one directory after the other (each directory given by the texts of its
/// files, in the order they are read).
pub open spec fn collect_dirs(
    p: ParserModel,
    acc: Seq<(Seq<char>, EntryModel)>,
    dirs: Seq<Seq<Seq<char>>>,
) -> Seq<(Seq<char>, EntryModel)>
    decreases dirs.len(),
{
    if dirs.len() == 0 {
        acc
    } else {
        collect_into(p, collect_dirs(p, acc, dirs.drop_last()), dirs.last())
    }
}

/// Adding the desktop files of each directory in turn reads all their files
/// in one pass, directory after directory; so for a name that several
/// directories give, the entry read last, from the last of them, stays.
pub proof fn lemma_collect_dirs(
    p: ParserModel,
    acc: Seq<(Seq<char>, EntryModel)>,
    dirs: Seq<Seq<Seq<char>>>,
)
    ensures
        collect_dirs(p, acc, dirs) == collect_into(p, acc, dirs.flatten()),
    decreases dirs.len(),
{
    dirs.lemma_flatten_and_flatten_alt_are_equivalent();
    if dirs.len() == 0 {
    } else {
        lemma_collect_dirs(p, acc, dirs.drop_last());
        dirs.drop_last().lemma_flatten_and_flatten_alt_are_equivalent();
        lemma_collect_concat(p, acc, dirs.drop_last().flatten_alt(), dirs.last());
    }
}

/// The directories searched for desktop files: `applications/` under each
/// directory of `$XDG_DATA_DIRS` (`:`-separated), or
/// `/usr/share/applications/` when it is unset.
pub open spec fn application_dirs_spec(xdg_data_dirs: Option<Seq<char>>) -> Seq<Seq<char>> {
    match xdg_data_dirs {
        Some(v) => split_pieces(v, Separator::Char(':'), true).map_values(
            |d: Seq<char>| join_path(d, "applications/"@),
        ),
        None => seq!["/usr/share/applications/"@],
    }
}

/// The directories to read desktop files from.
pub fn application_dirs(xdg_data_dirs: Option<&str>) -> (r: Vec<String>)
    ensures
        string_views(r@) == application_dirs_spec(
            match xdg_data_dirs {
                Some(v) => Some(v@),
                None => None,
            },
        ),
{
    let mut r: Vec<String> = Vec::new();
    match xdg_data_dirs {
        Some(v) => {
            let dirs = split_str(v, Separator::Char(':'), true);
            let ghost ds = string_views(dirs@);
            let mut i: usize = 0;
            while i < dirs.len()
                invariant
                    i <= dirs.len(),
                    ds == string_views(dirs@),
                    string_views(r@) == ds.take(i as int).map_values(
                        |d: Seq<char>| join_path(d, "applications/"@),
                    ),
                decreases dirs.len() - i,
            {
                let dir = path_join(dirs[i].as_str(), "applications/");
                assert(ds[i as int] == dirs@[i as int]@);
                let ghost old_r = string_views(r@);
                r.push(dir);
                assert(string_views(r@) =~= old_r.push(dir@));
                assert(string_views(r@) =~= ds.take(i + 1).map_values(
                    |d: Seq<char>| join_path(d, "applications/"@),
                ));
                i = i + 1;
            }
            assert(ds.take(i as int) =~= ds);
        },
        None => {
            r.push(String::from_str("/usr/share/applications/"));
            assert(string_views(r@) =~= seq!["/usr/share/applications/"@]);
        },
    }
    r
}

/// Whether a file is a desktop file, by its extension.
pub fn is_desktop_file(path: &str) -> (r: bool)
    ensures
        r == (path_extension(path@) == Some("desktop"@)),
{
    has_extension(path, "desktop")
}

} // verus!
