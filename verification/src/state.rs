//! Application state: the processed launcher entries, the keyword index,
//! and the search that ranks entries for a query.

use vstd::prelude::*;
use crate::commands::{Command, CommandModel};
use crate::entries::{Entry, EntryModel, opt_view};
use crate::string_map::{
    StringMap, insert_entry, keys_distinct, lemma_insert_lookup_other, lemma_insert_lookup_same,
    lemma_insert_map_values, lemma_map_values_distinct, lookup, map_entry_values,
};
use crate::text::{
    Separator, ascii_lower, contains_chars, contains_sub, is_ascii_char, join_strings, join_with,
    lemma_words_of_spaces, spec_to_lowercase, split_str, string_views, to_chars, to_lowercase,
    words,
};

verus! {

/// The result of `unidecode::unidecode`: an ASCII transliteration.
pub uninterp spec fn spec_unidecode(s: Seq<char>) -> Seq<char>;

/// `unidecode::unidecode`. Claimed: the result is the named
/// transliteration; as the crate documents, it is ASCII, and ASCII text is
/// left unchanged. The transliteration of other characters is not stated.
#[verifier::external_body]
pub(crate) fn transliterate(s: &str) -> (r: String)
    ensures
        r@ == spec_unidecode(s@),
        forall|i: int| 0 <= i < r@.len() ==> (r@[i] as u32) < 128,
        (forall|i: int| 0 <= i < s@.len() ==> (s@[i] as u32) < 128) ==> r@ == s@,
{
    unidecode::unidecode(s)
}

#[verifier::external_type_specification]
#[verifier::external_body]
pub struct ExMatcher(nucleo_matcher::Matcher);

/// The score that the fuzzy matcher gives a haystack for a query: `None`
/// when it does not match. It is the score of `nucleo_matcher`'s
/// `Pattern::parse(query, CaseMatching::Ignore, Normalization::Smart)` with a
/// matcher configured as `Config::DEFAULT` with `prefer_prefix`.
pub uninterp spec fn spec_fuzzy_score(query: Seq<char>, haystack: Seq<char>) -> Option<u32>;

/// `nucleo_matcher::Matcher::new` with the default configuration and
/// `prefer_prefix` set, the only configuration the launcher uses. Nothing
/// is claimed of the result.
#[verifier::external_body]
fn new_matcher() -> (r: nucleo_matcher::Matcher) {
    let mut config = nucleo_matcher::Config::DEFAULT.clone();
    config.prefer_prefix = true;
    nucleo_matcher::Matcher::new(config)
}

/// `nucleo_matcher::pattern::Pattern::parse` then `Pattern::score`, with a
/// matcher made by `new_matcher` (the matcher only lends its buffers).
/// Claimed: the result is the named score; and, as the crate's source
/// shows, a query of spaces only parses to no atoms and scores `Some(0)`.
#[verifier::external_body]
fn fuzzy_score(matcher: &mut nucleo_matcher::Matcher, query: &str, haystack: &str) -> (r: Option<u32>)
    ensures
        r == spec_fuzzy_score(query@, haystack@),
        (forall|i: int| 0 <= i < query@.len() ==> query@[i] == ' ') ==> r == Some(0u32),
{
    let pattern = nucleo_matcher::pattern::Pattern::parse(
        query,
        nucleo_matcher::pattern::CaseMatching::Ignore,
        nucleo_matcher::pattern::Normalization::Smart,
    );
    let mut buf = Vec::new();
    pattern.score(nucleo_matcher::Utf32Str::new(haystack, &mut buf), matcher)
}

/// An entry as the launcher displays it.
pub struct LauncherEntry {
    pub name: String,
    /// The path of the entry's icon, if any.
    pub icon: Option<String>,
    pub comment: String,
}

/// The model of a displayed entry.
pub struct LauncherEntryModel {
    pub name: Seq<char>,
    pub icon: Option<Seq<char>>,
    pub comment: Seq<char>,
}

impl View for LauncherEntry {
    type V = LauncherEntryModel;

    open spec fn view(&self) -> LauncherEntryModel {
        LauncherEntryModel { name: self.name@, icon: opt_view(self.icon), comment: self.comment@ }
    }
}

impl LauncherEntry {
    /// A copy of the entry.
    pub fn duplicate(&self) -> (r: LauncherEntry)
        ensures
            r@ == self@,
    {
        LauncherEntry {
            name: self.name.clone(),
            icon: match &self.icon {
                Some(i) => Some(i.clone()),
                None => None,
            },
            comment: self.comment.clone(),
        }
    }
}

/// The text an entry is searched by: its name and keywords joined by
/// spaces, in lower case, transliterated to ASCII.
pub open spec fn keyword_text(e: EntryModel) -> Seq<char> {
    spec_unidecode(
        spec_to_lowercase(
            join_with(
                seq![e.name] + match e.keywords {
                    Some(k) => k,
                    None => seq![],
                },
                " "@,
            ),
        ),
    )
}

/// The command of an entry.
pub open spec fn command_of(e: EntryModel) -> CommandModel {
    CommandModel { command: e.command, terminal: e.terminal }
}

/// How an entry is displayed: a missing comment shows as empty.
pub open spec fn display_of(e: EntryModel) -> LauncherEntryModel {
    LauncherEntryModel {
        name: e.name,
        icon: e.icon,
        comment: match e.comment {
            Some(c) => c,
            None => seq![],
        },
    }
}

/// The commands of entries by name: an entry replaces the command of an
/// earlier entry of the same name.
pub open spec fn commands_fold(es: Seq<EntryModel>) -> Seq<(Seq<char>, CommandModel)>
    decreases es.len(),
{
    if es.len() == 0 {
        seq![]
    } else {
        insert_entry(commands_fold(es.drop_last()), es.last().name, command_of(es.last()))
    }
}

/// The displayed entries by keyword text: an entry replaces an earlier
/// entry with the same keyword text.
pub open spec fn keywords_fold(es: Seq<EntryModel>) -> Seq<(Seq<char>, LauncherEntryModel)>
    decreases es.len(),
{
    if es.len() == 0 {
        seq![]
    } else {
        insert_entry(keywords_fold(es.drop_last()), keyword_text(es.last()), display_of(es.last()))
    }
}

/// A later entry decides the command of its name and the displayed entry
/// of its keyword text; other names and keyword texts keep theirs.
pub proof fn lemma_later_entry_wins(es: Seq<EntryModel>, e: EntryModel, name: Seq<char>, kw: Seq<char>)
    ensures
        lookup(commands_fold(es.push(e)), e.name) == Some(command_of(e)),
        name != e.name ==> lookup(commands_fold(es.push(e)), name) == lookup(
            commands_fold(es),
            name,
        ),
        lookup(keywords_fold(es.push(e)), keyword_text(e)) == Some(display_of(e)),
        kw != keyword_text(e) ==> lookup(keywords_fold(es.push(e)), kw) == lookup(
            keywords_fold(es),
            kw,
        ),
{
    assert(es.push(e).drop_last() =~= es);
    lemma_insert_lookup_same(commands_fold(es), e.name, command_of(e));
    lemma_insert_lookup_same(keywords_fold(es), keyword_text(e), display_of(e));
    if name != e.name {
        lemma_insert_lookup_other(commands_fold(es), e.name, command_of(e), name);
    }
    if kw != keyword_text(e) {
        lemma_insert_lookup_other(keywords_fold(es), keyword_text(e), display_of(e), kw);
    }
}

/// The command kept for a name is that of the last entry of that name,
/// with both its command line and its terminal flag; a name that no entry
/// has gets no command.
pub proof fn lemma_command_of_last_entry(es: Seq<EntryModel>, name: Seq<char>)
    ensures
        (forall|j: int| 0 <= j < es.len() ==> (#[trigger] es[j]).name != name) ==> lookup(
            commands_fold(es),
            name,
        ) is None,
        forall|i: int|
            0 <= i < es.len() && (#[trigger] es[i]).name == name && (forall|j: int|
                i < j < es.len() ==> (#[trigger] es[j]).name != name) ==> lookup(
                commands_fold(es),
                name,
            ) == Some(CommandModel { command: es[i].command, terminal: es[i].terminal }),
    decreases es.len(),
{
    if es.len() > 0 {
        let l = es.last();
        let rest = es.drop_last();
        lemma_command_of_last_entry(rest, name);
        if l.name == name {
            lemma_insert_lookup_same(commands_fold(rest), l.name, command_of(l));
            assert forall|i: int|
                0 <= i < es.len() && (#[trigger] es[i]).name == name && (forall|j: int|
                    i < j < es.len() ==> (#[trigger] es[j]).name != name) implies lookup(
                commands_fold(es),
                name,
            ) == Some(CommandModel { command: es[i].command, terminal: es[i].terminal }) by {
                if i < es.len() - 1 {
                    assert(es[es.len() - 1].name != name);
                }
            }
            assert(es[es.len() - 1].name == name);
        } else {
            lemma_insert_lookup_other(commands_fold(rest), l.name, command_of(l), name);
            assert forall|i: int|
                0 <= i < es.len() && (#[trigger] es[i]).name == name && (forall|j: int|
                    i < j < es.len() ==> (#[trigger] es[j]).name != name) implies lookup(
                commands_fold(es),
                name,
            ) == Some(CommandModel { command: es[i].command, terminal: es[i].terminal }) by {
                assert(i < es.len() - 1);
                assert(rest[i] == es[i]);
                assert forall|j: int| i < j < rest.len() implies (#[trigger] rest[j]).name
                    != name by {
                    assert(rest[j] == es[j]);
                }
            }
            if forall|j: int| 0 <= j < es.len() ==> (#[trigger] es[j]).name != name {
                assert forall|j: int| 0 <= j < rest.len() implies (#[trigger] rest[j]).name
                    != name by {
                    assert(rest[j] == es[j]);
                }
            }
        }
    }
}

/// The entry displayed for a keyword text is the last entry with that
/// keyword text: its name, its icon, and its comment (empty only when the
/// entry has no comment); a keyword text that no entry has shows nothing.
pub proof fn lemma_display_of_last_entry(es: Seq<EntryModel>, kw: Seq<char>)
    ensures
        (forall|j: int| 0 <= j < es.len() ==> keyword_text(#[trigger] es[j]) != kw) ==> lookup(
            keywords_fold(es),
            kw,
        ) is None,
        forall|i: int|
            0 <= i < es.len() && keyword_text(#[trigger] es[i]) == kw && (forall|j: int|
                i < j < es.len() ==> keyword_text(#[trigger] es[j]) != kw) ==> (lookup(
                keywords_fold(es),
                kw,
            ) matches Some(d) && d.name == es[i].name && d.icon == es[i].icon && (es[i].comment
                matches Some(c) ==> d.comment == c) && (es[i].comment is None ==> d.comment.len()
                == 0)),
    decreases es.len(),
{
    if es.len() > 0 {
        let l = es.last();
        let rest = es.drop_last();
        lemma_display_of_last_entry(rest, kw);
        if keyword_text(l) == kw {
            lemma_insert_lookup_same(keywords_fold(rest), keyword_text(l), display_of(l));
            assert forall|i: int|
                0 <= i < es.len() && keyword_text(#[trigger] es[i]) == kw && (forall|j: int|
                    i < j < es.len() ==> keyword_text(#[trigger] es[j]) != kw) implies (lookup(
                keywords_fold(es),
                kw,
            ) matches Some(d) && d.name == es[i].name && d.icon == es[i].icon && (es[i].comment
                matches Some(c) ==> d.comment == c) && (es[i].comment is None ==> d.comment.len()
                == 0)) by {
                if i < es.len() - 1 {
                    assert(keyword_text(es[es.len() - 1]) != kw);
                }
            }
            assert(keyword_text(es[es.len() - 1]) == kw);
        } else {
            lemma_insert_lookup_other(keywords_fold(rest), keyword_text(l), display_of(l), kw);
            assert forall|i: int|
                0 <= i < es.len() && keyword_text(#[trigger] es[i]) == kw && (forall|j: int|
                    i < j < es.len() ==> keyword_text(#[trigger] es[j]) != kw) implies (lookup(
                keywords_fold(es),
                kw,
            ) matches Some(d) && d.name == es[i].name && d.icon == es[i].icon && (es[i].comment
                matches Some(c) ==> d.comment == c) && (es[i].comment is None ==> d.comment.len()
                == 0)) by {
                assert(i < es.len() - 1);
                assert(rest[i] == es[i]);
                assert forall|j: int| i < j < rest.len() implies keyword_text(#[trigger] rest[j])
                    != kw by {
                    assert(rest[j] == es[j]);
                }
            }
            if forall|j: int| 0 <= j < es.len() ==> keyword_text(#[trigger] es[j]) != kw {
                assert forall|j: int| 0 <= j < rest.len() implies keyword_text(#[trigger] rest[j])
                    != kw by {
                    assert(rest[j] == es[j]);
                }
            }
        }
    }
}

/// The view of a command, as a function.
pub open spec fn command_view_fn() -> spec_fn(Command) -> CommandModel {
    |c: Command| c@
}

/// The view of a displayed entry, as a function.
pub open spec fn display_view_fn() -> spec_fn(LauncherEntry) -> LauncherEntryModel {
    |e: LauncherEntry| e@
}

/// The views of entries.
pub open spec fn entry_views(es: Seq<Entry>) -> Seq<EntryModel> {
    es.map_values(|e: Entry| e@)
}

/// Preprocessed entries for easy use in the app launcher UI.
pub struct ProcessedEntries {
    /// From entry name to entry command.
    pub commands_by_name: StringMap<Command>,
    /// Launcher entries for display, indexed by their keywords.
    pub entries_by_keywords: StringMap<LauncherEntry>,
}

impl ProcessedEntries {
    /// The commands, as a model.
    pub open spec fn commands_model(&self) -> Seq<(Seq<char>, CommandModel)> {
        map_entry_values(self.commands_by_name.entries(), command_view_fn())
    }

    /// The displayed entries by keyword text, as a model.
    pub open spec fn keywords_model(&self) -> Seq<(Seq<char>, LauncherEntryModel)> {
        map_entry_values(self.entries_by_keywords.entries(), display_view_fn())
    }

    /// Whether these are the processed form of the entries.
    pub open spec fn processes(&self, es: Seq<EntryModel>) -> bool {
        &&& self.commands_model() == commands_fold(es)
        &&& self.keywords_model() == keywords_fold(es)
    }

    /// No entries.
    pub fn empty() -> (r: Self)
        ensures
            r.processes(seq![]),
    {
        let r = ProcessedEntries {
            commands_by_name: StringMap::new(),
            entries_by_keywords: StringMap::new(),
        };
        assert(r.commands_model() =~= seq![]);
        assert(r.keywords_model() =~= seq![]);
        r
    }

    /// Process entries for display and filtering.
    pub fn new(entries: Vec<Entry>) -> (r: Self)
        ensures
            r.processes(entry_views(entries@)),
    {
        let ghost all = entry_views(entries@);
        let mut r = Self::empty();
        let mut i: usize = 0;
        let mut rest = entries;
        let ghost orig = rest@;
        let n = rest.len();
        while rest.len() > 0
            invariant
                n == orig.len(),
                i + rest@.len() == orig.len(),
                rest@ == orig.skip(i as int),
                all == entry_views(orig),
                r.processes(all.take(i as int)),
            decreases rest@.len(),
        {
            let e = rest.remove(0);
            let ghost ev = e@;
            assert(ev == all[i as int]);
            assert(all.take(i + 1).drop_last() =~= all.take(i as int));
            assert(all.take(i + 1).last() == ev);
            assert(rest@ =~= orig.skip(i + 1));
            let keywords = Self::keyword_text_of(&e);
            let Entry { name, command, icon, comment, keywords: _, terminal } = e;
            let ghost cmds = r.commands_by_name.entries();
            let ghost kws = r.entries_by_keywords.entries();
            let cmd = Command { command, terminal };
            let shown = LauncherEntry {
                name: name.clone(),
                icon,
                comment: match comment {
                    Some(c) => c,
                    None => String::new(),
                },
            };
            assert(shown@ == display_of(ev));
            assert(cmd@ == command_of(ev));
            r.commands_by_name.insert(name, cmd);
            r.entries_by_keywords.insert(keywords, shown);
            proof {
                lemma_insert_map_values(cmds, ev.name, cmd, command_view_fn());
                lemma_insert_map_values(kws, keyword_text(ev), shown, display_view_fn());
            }
            i = i + 1;
        }
        assert(all.take(i as int) =~= all);
        r
    }

    /// The keyword text of an entry.
    fn keyword_text_of(e: &Entry) -> (r: String)
        ensures
            r@ == keyword_text(e@),
    {
        let mut parts: Vec<String> = Vec::new();
        parts.push(e.name.clone());
        match &e.keywords {
            Some(k) => {
                let mut j: usize = 0;
                while j < k.len()
                    invariant
                        j <= k.len(),
                        string_views(parts@) == seq![e.name@] + string_views(k@.take(j as int)),
                    decreases k.len() - j,
                {
                    let ghost before = string_views(parts@);
                    parts.push(k[j].clone());
                    assert(string_views(parts@) =~= before.push(k@[j as int]@));
                    assert(string_views(parts@) =~= seq![e.name@] + string_views(
                        k@.take(j + 1),
                    ));
                    j = j + 1;
                }
                assert(k@.take(j as int) =~= k@);
            },
            None => {
                assert(string_views(parts@) =~= seq![e.name@] + Seq::<Seq<char>>::empty());
            },
        }
        let joined = join_strings(&parts, " ");
        let lower = to_lowercase(joined.as_str());
        transliterate(lower.as_str())
    }
}

/// The normal form of a query: lower case, transliterated to ASCII (as the
/// keyword texts are).
pub open spec fn normalize_query(q: Seq<char>) -> Seq<char> {
    spec_unidecode(spec_to_lowercase(q))
}

/// Every word occurs in the key.
pub open spec fn matches_all_words(key: Seq<char>, ws: Seq<Seq<char>>) -> bool {
    forall|j: int| 0 <= j < ws.len() ==> contains_sub(key, #[trigger] ws[j])
}

/// Where a score goes in a ranking: before the first lower score, so that
/// equal scores keep the order in which they came.
pub open spec fn insert_pos(s: Seq<(usize, u32)>, score: u32) -> int
    decreases s.len(),
{
    if s.len() == 0 {
        0
    } else if s[0].1 < score {
        0
    } else {
        1 + insert_pos(s.drop_first(), score)
    }
}

/// A ranking with one more scored index.
pub open spec fn insert_ranked(s: Seq<(usize, u32)>, x: (usize, u32)) -> Seq<(usize, u32)> {
    s.insert(insert_pos(s, x.1), x)
}

/// The ranking of the first `n` entries for a normalized query: the
/// positions of the entries whose key contains every word of the query and
/// that the fuzzy matcher accepts, with their scores, by descending score
/// (a stable sort: equal scores stay in entry order).
pub open spec fn rank_upto<V>(e: Seq<(Seq<char>, V)>, input: Seq<char>, n: nat) -> Seq<
    (usize, u32),
>
    decreases n,
{
    if n == 0 {
        seq![]
    } else {
        let acc = rank_upto(e, input, (n - 1) as nat);
        let k = e[n - 1].0;
        if matches_all_words(k, words(input)) {
            match spec_fuzzy_score(input, k) {
                Some(sc) => insert_ranked(acc, ((n - 1) as usize, sc)),
                None => acc,
            }
        } else {
            acc
        }
    }
}

/// The smaller of two numbers.
pub open spec fn min_nat(a: nat, b: nat) -> nat {
    if a < b {
        a
    } else {
        b
    }
}

/// What a search shows: the best `limit` ranked entries.
pub open spec fn search_spec(e: Seq<(Seq<char>, LauncherEntryModel)>, query: Seq<char>, limit: nat) -> Seq<
    LauncherEntryModel,
> {
    let ranked = rank_upto(e, normalize_query(query), e.len());
    ranked.take(min_nat(limit, ranked.len()) as int).map_values(
        |p: (usize, u32)| e[p.0 as int].1,
    )
}

/// What the launcher shows before any search: its first `limit` entries.
pub open spec fn first_entries(e: Seq<(Seq<char>, LauncherEntryModel)>, limit: nat) -> Seq<
    LauncherEntryModel,
> {
    e.take(min_nat(limit, e.len()) as int).map_values(|p: (Seq<char>, LauncherEntryModel)| p.1)
}

/// The position found by scanning a ranking is `insert_pos`.
pub proof fn lemma_insert_pos(s: Seq<(usize, u32)>, score: u32, j: int)
    requires
        0 <= j <= s.len(),
        forall|k: int| 0 <= k < j ==> s[k].1 >= score,
        j == s.len() || s[j].1 < score,
    ensures
        insert_pos(s, score) == j,
    decreases s.len(),
{
    if s.len() > 0 && j > 0 {
        lemma_insert_pos(s.drop_first(), score, j - 1);
    }
}

/// A ranking is ordered by descending score.
pub open spec fn ranked_desc(s: Seq<(usize, u32)>) -> bool {
    forall|a: int, b: int| 0 <= a < b < s.len() ==> s[a].1 >= s[b].1
}

/// Whether an entry key is found by a normalized query: it holds every
/// word, and the fuzzy matcher accepts it.
pub open spec fn accepted(key: Seq<char>, input: Seq<char>) -> bool {
    matches_all_words(key, words(input)) && spec_fuzzy_score(input, key) is Some
}

/// What `insert_pos` finds: every earlier score is at least the new one,
/// and the score it stops at is lower.
pub proof fn lemma_insert_pos_props(s: Seq<(usize, u32)>, score: u32)
    ensures
        0 <= insert_pos(s, score) <= s.len(),
        forall|k: int| 0 <= k < insert_pos(s, score) ==> s[k].1 >= score,
        insert_pos(s, score) < s.len() ==> s[insert_pos(s, score)].1 < score,
    decreases s.len(),
{
    if s.len() > 0 && s[0].1 >= score {
        let t = s.drop_first();
        lemma_insert_pos_props(t, score);
        assert forall|k: int| 0 <= k < insert_pos(s, score) implies s[k].1 >= score by {
            if k > 0 {
                assert(s[k] == t[k - 1]);
            }
        }
    }
}

/// Inserting by `insert_pos` keeps a ranking ordered.
pub proof fn lemma_insert_ranked_sorted(s: Seq<(usize, u32)>, x: (usize, u32))
    requires
        ranked_desc(s),
    ensures
        ranked_desc(insert_ranked(s, x)),
{
    let p = insert_pos(s, x.1);
    lemma_insert_pos_props(s, x.1);
    s.insert_ensures(p, x);
    let r = insert_ranked(s, x);
    assert forall|a: int, b: int| 0 <= a < b < r.len() implies r[a].1 >= r[b].1 by {
        if b < p {
        } else if b == p {
        } else if a < p {
            assert(r[b] == s[b - 1]);
            assert(s[a].1 >= s[b - 1].1 || a == b - 1);
        } else if a == p {
            assert(r[b] == s[b - 1]);
            assert(s[p].1 < x.1);
            assert(s[p].1 >= s[b - 1].1 || p == b - 1);
        } else {
            assert(r[a] == s[a - 1]);
            assert(r[b] == s[b - 1]);
        }
    }
}

/// The ranking of the first `n` entries: it is ordered by descending score;
/// it holds exactly the positions below `n` whose key is accepted, each once
/// and with the fuzzy score of its key.
pub proof fn lemma_rank_contents<V>(e: Seq<(Seq<char>, V)>, input: Seq<char>, n: nat)
    requires
        n <= e.len(),
        e.len() <= usize::MAX,
    ensures
        ranked_desc(rank_upto(e, input, n)),
        forall|t: int|
            0 <= t < rank_upto(e, input, n).len() ==> {
                let (i, sc) = #[trigger] rank_upto(e, input, n)[t];
                &&& i < n
                &&& accepted(e[i as int].0, input)
                &&& spec_fuzzy_score(input, e[i as int].0) == Some(sc)
            },
        forall|a: int, b: int|
            0 <= a < b < rank_upto(e, input, n).len() ==> rank_upto(e, input, n)[a].0 != rank_upto(
                e,
                input,
                n,
            )[b].0,
        forall|i: int|
            0 <= i < n && accepted(#[trigger] e[i].0, input) ==> exists|t: int|
                0 <= t < rank_upto(e, input, n).len() && rank_upto(e, input, n)[t].0 == i,
    decreases n,
{
    if n > 0 {
        let m = (n - 1) as nat;
        let acc = rank_upto(e, input, m);
        lemma_rank_contents(e, input, m);
        let k = e[m as int].0;
        let r = rank_upto(e, input, n);
        if matches_all_words(k, words(input)) && spec_fuzzy_score(input, k) is Some {
            let sc = spec_fuzzy_score(input, k).unwrap();
            let x = (m as usize, sc);
            let p = insert_pos(acc, sc);
            lemma_insert_pos_props(acc, sc);
            acc.insert_ensures(p, x);
            lemma_insert_ranked_sorted(acc, x);
            assert(r == acc.insert(p, x));
            assert forall|t: int| 0 <= t < r.len() implies {
                let (i, s2) = #[trigger] r[t];
                &&& i < n
                &&& accepted(e[i as int].0, input)
                &&& spec_fuzzy_score(input, e[i as int].0) == Some(s2)
            } by {
                if t > p {
                    assert(r[t] == acc[t - 1]);
                } else if t < p {
                    assert(r[t] == acc[t]);
                }
            }
            assert forall|a: int, b: int| 0 <= a < b < r.len() implies r[a].0 != r[b].0 by {
                if a < p && b < p {
                } else if a < p && b == p {
                    assert(acc[a].0 < m);
                } else if a < p {
                    assert(r[b] == acc[b - 1]);
                } else if a == p {
                    assert(r[b] == acc[b - 1]);
                    assert(acc[b - 1].0 < m);
                } else {
                    assert(r[a] == acc[a - 1]);
                    assert(r[b] == acc[b - 1]);
                }
            }
            assert forall|i: int| 0 <= i < n && accepted(#[trigger] e[i].0, input) implies exists|
                t: int,
            | 0 <= t < r.len() && r[t].0 == i by {
                if i == m {
                    assert(r[p].0 == i);
                } else {
                    let t0 = choose|t: int| 0 <= t < acc.len() && acc[t].0 == i;
                    if t0 < p {
                        assert(r[t0] == acc[t0]);
                    } else {
                        assert(r[t0 + 1] == acc[t0]);
                    }
                }
            }
        } else {
            assert(r == acc);
            assert forall|i: int| 0 <= i < n && accepted(#[trigger] e[i].0, input) implies exists|
                t: int,
            | 0 <= t < r.len() && r[t].0 == i by {
                if i == m {
                    assert(false);
                }
            }
        }
    }
}

/// What a search shows, entry by entry: the ranked entries in rank order,
/// as many as the limit allows. Every shown entry's keyword text contains
/// each word of the normalized query and is accepted by the fuzzy matcher;
/// the scores descend; no entry is shown twice; and when the limit is at
/// least the number of accepted entries, all of them are shown.
pub proof fn lemma_search_results(
    e: Seq<(Seq<char>, LauncherEntryModel)>,
    query: Seq<char>,
    limit: nat,
)
    requires
        e.len() <= usize::MAX,
    ensures
        ({
            let input = normalize_query(query);
            let ranked = rank_upto(e, input, e.len());
            let shown = search_spec(e, query, limit);
            &&& shown.len() == min_nat(limit, ranked.len())
            &&& forall|t: int| 0 <= t < shown.len() ==> shown[t] == e[ranked[t].0 as int].1
            &&& ranked_desc(ranked)
            &&& forall|t: int|
                0 <= t < ranked.len() ==> ranked[t].0 < e.len() && accepted(
                    e[ranked[t].0 as int].0,
                    input,
                ) && spec_fuzzy_score(input, e[ranked[t].0 as int].0) == Some(ranked[t].1)
            &&& forall|a: int, b: int| 0 <= a < b < ranked.len() ==> ranked[a].0 != ranked[b].0
            &&& forall|i: int|
                0 <= i < e.len() && accepted(#[trigger] e[i].0, input) ==> exists|t: int|
                    0 <= t < ranked.len() && ranked[t].0 == i
        }),
{
    let input = normalize_query(query);
    lemma_rank_contents(e, input, e.len());
    let ranked = rank_upto(e, input, e.len());
    assert forall|t: int| 0 <= t < ranked.len() implies ranked[t].0 < e.len() && accepted(
        e[ranked[t].0 as int].0,
        input,
    ) && spec_fuzzy_score(input, e[ranked[t].0 as int].0) == Some(ranked[t].1) by {
        let _ = ranked[t];
    }
}

/// `w` is the run of characters of `key` that starts at some position.
pub open spec fn occurs_in(key: Seq<char>, w: Seq<char>) -> bool {
    exists|s: int| 0 <= s && s + w.len() <= key.len() && #[trigger] key.subrange(s, s + w.len()) == w
}

/// The word step of the search: a key passes exactly when each word of the
/// normalized query is a run of its characters starting at any position
/// (not only where a word of the key starts); and a key is accepted exactly
/// when it passes and the fuzzy matcher scores it.
pub proof fn lemma_word_filter(key: Seq<char>, input: Seq<char>)
    ensures
        matches_all_words(key, words(input)) <==> (forall|j: int|
            0 <= j < words(input).len() ==> occurs_in(key, #[trigger] words(input)[j])),
        accepted(key, input) <==> (forall|j: int|
            0 <= j < words(input).len() ==> occurs_in(key, #[trigger] words(input)[j]))
            && spec_fuzzy_score(input, key) is Some,
{
    assert forall|j: int| 0 <= j < words(input).len() implies (contains_sub(
        key,
        #[trigger] words(input)[j],
    ) <==> occurs_in(key, words(input)[j])) by {
        let w = words(input)[j];
        if contains_sub(key, w) {
            let s = choose|s: int|
                0 <= s <= key.len() - w.len() && #[trigger] key.subrange(s, s + w.len()) == w;
            assert(key.subrange(s, s + w.len()) == w);
        }
    }
}

/// A string of spaces only (the empty string among them).
pub open spec fn only_spaces(s: Seq<char>) -> bool {
    forall|i: int| 0 <= i < s.len() ==> s[i] == ' '
}

/// Whether every word occurs in the key.
fn contains_all_words(key: &Vec<char>, ws: &Vec<Vec<char>>) -> (r: bool)
    ensures
        r == matches_all_words(key@, ws@.map_values(|w: Vec<char>| w@)),
{
    let ghost wv = ws@.map_values(|w: Vec<char>| w@);
    let mut j: usize = 0;
    while j < ws.len()
        invariant
            j <= ws.len(),
            wv == ws@.map_values(|w: Vec<char>| w@),
            forall|k: int| 0 <= k < j ==> contains_sub(key@, #[trigger] wv[k]),
        decreases ws.len() - j,
    {
        if !contains_chars(key, &ws[j]) {
            assert(!contains_sub(key@, wv[j as int]));
            return false;
        }
        j = j + 1;
    }
    true
}

/// The words of a normalized query, as characters.
fn query_words(input: &String) -> (r: Vec<Vec<char>>)
    ensures
        r@.map_values(|w: Vec<char>| w@) == words(input@),
{
    let ws = split_str(input.as_str(), Separator::WhiteSpace, false);
    let mut r: Vec<Vec<char>> = Vec::new();
    let mut j: usize = 0;
    while j < ws.len()
        invariant
            j <= ws.len(),
            string_views(ws@) == words(input@),
            r@.map_values(|w: Vec<char>| w@) == string_views(ws@).take(j as int),
        decreases ws.len() - j,
    {
        let ghost before = r@.map_values(|w: Vec<char>| w@);
        r.push(to_chars(ws[j].as_str()));
        assert(r@.map_values(|w: Vec<char>| w@) =~= before.push(ws@[j as int]@));
        assert(string_views(ws@).take(j + 1) =~= string_views(ws@).take(j as int).push(
            ws@[j as int]@,
        ));
        j = j + 1;
    }
    assert(string_views(ws@).take(j as int) =~= string_views(ws@));
    r
}

/// Ranks the displayed entries for a normalized query.
fn rank_entries(
    entries: &StringMap<LauncherEntry>,
    matcher: &mut nucleo_matcher::Matcher,
    input: &String,
) -> (r: Vec<(usize, u32)>)
    ensures
        r@ == rank_upto(
            map_entry_values(entries.entries(), display_view_fn()),
            input@,
            entries.entries().len(),
        ),
        only_spaces(input@) ==> r@ == Seq::new(
            entries.entries().len(),
            |t: int| (t as usize, 0u32),
        ),
        keys_distinct(entries.entries()),
        entries.entries().len() <= usize::MAX,
{
    let ghost e = map_entry_values(entries.entries(), display_view_fn());
    let ws = query_words(input);
    let n = entries.len();
    let mut ranked: Vec<(usize, u32)> = Vec::new();
    let mut i: usize = 0;
    assert(ranked@ =~= rank_upto(e, input@, 0));
    while i < n
        invariant
            i <= n,
            n == entries.entries().len(),
            e == map_entry_values(entries.entries(), display_view_fn()),
            ws@.map_values(|w: Vec<char>| w@) == words(input@),
            ranked@ == rank_upto(e, input@, i as nat),
            only_spaces(input@) ==> ranked@ == Seq::new(i as nat, |t: int| (t as usize, 0u32)),
        decreases n - i,
    {
        let (key, _) = entries.entry_at(i);
        assert(key@ == e[i as int].0);
        let kc = to_chars(key.as_str());
        proof {
            if only_spaces(input@) {
                lemma_words_of_spaces(input@);
            }
        }
        if contains_all_words(&kc, &ws) {
            match fuzzy_score(matcher, input.as_str(), key.as_str()) {
                Some(sc) => {
                    let mut j: usize = 0;
                    while j < ranked.len() && ranked[j].1 >= sc
                        invariant
                            j <= ranked@.len(),
                            forall|k: int| 0 <= k < j ==> ranked@[k].1 >= sc,
                        decreases ranked@.len() - j,
                    {
                        j = j + 1;
                    }
                    proof {
                        lemma_insert_pos(ranked@, sc, j as int);
                        if only_spaces(input@) {
                            assert(sc == 0);
                            assert(j == ranked@.len());
                        }
                    }
                    ranked.insert(j, (i, sc));
                    proof {
                        if only_spaces(input@) {
                            assert(ranked@ =~= Seq::new((i + 1) as nat, |t: int| (t as usize, 0u32)));
                        }
                    }
                },
                None => {
                    proof {
                        if only_spaces(input@) {
                            assert(false);
                        }
                    }
                },
            }
        } else {
            proof {
                if only_spaces(input@) {
                    assert(false);
                }
            }
        }
        i = i + 1;
    }
    ranked
}

/// Global application state.
pub struct AppState {
    /// Desktop applications.
    apps: ProcessedEntries,
    /// Custom entries. When not `None`, the launcher is in "custom entries"
    /// mode.
    custom: Option<ProcessedEntries>,
    /// Fuzzy matcher (it needs to be mutable during matching).
    matcher: nucleo_matcher::Matcher,
}

impl AppState {
    /// The desktop applications.
    pub closed spec fn apps(&self) -> ProcessedEntries {
        self.apps
    }

    /// The custom entries, if any.
    pub closed spec fn custom(&self) -> Option<ProcessedEntries> {
        self.custom
    }

    /// The entries the launcher works on: the custom ones when there are
    /// any, else the desktop applications.
    pub open spec fn active(&self) -> ProcessedEntries {
        match self.custom() {
            Some(c) => c,
            None => self.apps(),
        }
    }

    /// A state with no applications and no custom entries.
    pub fn new() -> (r: Self)
        ensures
            r.apps().processes(seq![]),
            r.custom() is None,
    {
        AppState { apps: ProcessedEntries::empty(), custom: None, matcher: new_matcher() }
    }

    /// Refresh apps.
    pub fn set_apps(&mut self, entries: Vec<Entry>)
        ensures
            final(self).apps().processes(entry_views(entries@)),
            final(self).custom() == old(self).custom(),
    {
        self.apps = ProcessedEntries::new(entries);
    }

    /// Set custom entries (`None` leaves custom entries mode).
    pub fn set_custom_entries(&mut self, entries: Option<Vec<Entry>>)
        ensures
            final(self).apps() == old(self).apps(),
            match entries {
                Some(es) => final(self).custom() matches Some(c) && c.processes(entry_views(es@)),
                None => final(self).custom() is None,
            },
    {
        self.custom = match entries {
            Some(es) => Some(ProcessedEntries::new(es)),
            None => None,
        };
    }

    /// Search entries given a query: the entries whose keyword text holds
    /// every word of the normalized query and that the fuzzy matcher
    /// accepts, best score first, at most `limit` of them. A query that
    /// normalizes to spaces only (the empty query, spaces, or other blanks
    /// that transliterate to spaces) shows the same entries as
    /// `set_launcher_entries`.
    pub fn search_entries(&mut self, query: &str, limit: usize) -> (r: Vec<LauncherEntry>)
        ensures
            r@.map_values(display_view_fn()) == search_spec(
                old(self).active().keywords_model(),
                query@,
                limit as nat,
            ),
            only_spaces(query@) ==> r@.map_values(display_view_fn()) == first_entries(
                old(self).active().keywords_model(),
                limit as nat,
            ),
            only_spaces(normalize_query(query@)) ==> r@.map_values(display_view_fn())
                == first_entries(old(self).active().keywords_model(), limit as nat),
            keys_distinct(old(self).active().keywords_model()),
            final(self).apps() == old(self).apps(),
            final(self).custom() == old(self).custom(),
    {
        let lower = to_lowercase(query);
        let input = transliterate(lower.as_str());
        proof {
            if only_spaces(query@) {
                assert forall|i: int| 0 <= i < query@.len() implies is_ascii_char(
                    #[trigger] query@[i],
                ) by {
                    assert(query@[i] == ' ');
                }
                assert forall|i: int| 0 <= i < lower@.len() implies (lower@[i] as u32) < 128 by {
                    assert(lower@[i] == ascii_lower(query@[i]));
                }
                assert(input@ == lower@);
                assert forall|i: int| 0 <= i < input@.len() implies input@[i] == ' ' by {
                    assert(lower@[i] == ascii_lower(query@[i]));
                }
            }
        }
        let entries = match &self.custom {
            Some(c) => &c.entries_by_keywords,
            None => &self.apps.entries_by_keywords,
        };
        let ghost e = map_entry_values(entries.entries(), display_view_fn());
        let ranked = rank_entries(entries, &mut self.matcher, &input);
        proof {
            lemma_rank_contents(e, input@, e.len());
            lemma_map_values_distinct(entries.entries(), display_view_fn());
        }
        let m = if limit < ranked.len() {
            limit
        } else {
            ranked.len()
        };
        let mut r: Vec<LauncherEntry> = Vec::new();
        let mut t: usize = 0;
        while t < m
            invariant
                t <= m,
                m <= ranked@.len(),
                e == map_entry_values(entries.entries(), display_view_fn()),
                forall|k: int| 0 <= k < ranked@.len() ==> (#[trigger] ranked@[k]).0 < e.len(),
                r@.map_values(display_view_fn()) == ranked@.take(t as int).map_values(
                    |p: (usize, u32)| e[p.0 as int].1,
                ),
            decreases m - t,
        {
            let idx = ranked[t].0;
            let (_, shown) = entries.entry_at(idx);
            let ghost before = r@.map_values(display_view_fn());
            r.push(shown.duplicate());
            assert(r@.map_values(display_view_fn()) =~= before.push(e[idx as int].1));
            assert(ranked@.take(t + 1) =~= ranked@.take(t as int).push(ranked@[t as int]));
            assert(r@.map_values(display_view_fn()) =~= ranked@.take(t + 1).map_values(
                |p: (usize, u32)| e[p.0 as int].1,
            ));
            t = t + 1;
        }
        proof {
            if only_spaces(input@) {
                assert(r@.map_values(display_view_fn()) =~= first_entries(e, limit as nat));
            }
        }
        r
    }

    /// The initial entries of the launcher: the first `limit` entries.
    pub fn set_launcher_entries(&self, limit: usize) -> (r: Vec<LauncherEntry>)
        ensures
            r@.map_values(display_view_fn()) == first_entries(
                self.active().keywords_model(),
                limit as nat,
            ),
            keys_distinct(self.active().keywords_model()),
    {
        let entries = match &self.custom {
            Some(c) => &c.entries_by_keywords,
            None => &self.apps.entries_by_keywords,
        };
        let ghost e = map_entry_values(entries.entries(), display_view_fn());
        let n = entries.len();
        proof {
            lemma_map_values_distinct(entries.entries(), display_view_fn());
        }
        let m = if limit < n {
            limit
        } else {
            n
        };
        let mut r: Vec<LauncherEntry> = Vec::new();
        let mut t: usize = 0;
        while t < m
            invariant
                t <= m,
                m <= n,
                n == e.len(),
                e == map_entry_values(entries.entries(), display_view_fn()),
                r@.map_values(display_view_fn()) == e.take(t as int).map_values(
                    |p: (Seq<char>, LauncherEntryModel)| p.1,
                ),
            decreases m - t,
        {
            let (_, shown) = entries.entry_at(t);
            let ghost before = r@.map_values(display_view_fn());
            assert(e[t as int].1 == shown@);
            r.push(shown.duplicate());
            assert(r@.map_values(display_view_fn()) =~= before.push(shown@));
            assert(e.take(t + 1) =~= e.take(t as int).push(e[t as int]));
            assert(r@.map_values(display_view_fn()) =~= e.take(t + 1).map_values(
                |p: (Seq<char>, LauncherEntryModel)| p.1,
            ));
            t = t + 1;
        }
        r
    }

    /// Get a command by its name.
    pub fn get_command(&self, name: &str) -> (r: Option<Command>)
        ensures
            match r {
                Some(c) => lookup(self.active().commands_model(), name@) == Some(c@),
                None => lookup(self.active().commands_model(), name@) is None,
            },
    {
        let entries = match &self.custom {
            Some(c) => &c.commands_by_name,
            None => &self.apps.commands_by_name,
        };
        let ghost model = map_entry_values(entries.entries(), command_view_fn());
        assert(model == self.active().commands_model());
        proof {
            crate::string_map::lemma_index_of_key_map(entries.entries(), command_view_fn(), name@);
            crate::string_map::lemma_index_of_key(entries.entries(), name@);
        }
        match entries.get(name) {
            Some(c) => {
                let d = c.duplicate();
                let ghost i = crate::string_map::index_of_key(entries.entries(), name@);
                assert(model[i].1 == c@);
                Some(d)
            },
            None => None,
        }
    }
}

} // verus!
