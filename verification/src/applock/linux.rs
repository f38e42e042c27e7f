use vstd::prelude::*;
use crate::applock::app_info::{AppInfo, AppInfoView, covers, first_occurrences};
use crate::applock::identifier::same_app;
use crate::model::text::{chars_of, string_of, strings_view, has_prefix, second_field, starts_with, same_text, char_count, text_from, split_second, contains_char, concat, prefix_before, suffix_after, lemma_suffix_after_shorter, split_fields, split_all};
use crate::applock::paths::{path_file_name, file_name_of, path_join, join_path};

verus! {

/// The installed applications, from the entries found in the application directories
/// in the order they were found: the first entry of each application is kept, later
/// ones that name the same application are dropped.
pub fn get_installed_apps(found: Vec<AppInfo>) -> (apps: Vec<AppInfo>)
    ensures
        apps@.map_values(|a: AppInfo| a@) == first_occurrences(found@.map_values(|a: AppInfo| a@)),
{
    let ghost input = found@.map_values(|a: AppInfo| a@);
    let mut apps: Vec<AppInfo> = Vec::new();
    let mut i: usize = 0;
    while i < found.len()
        invariant
            i <= found.len(),
            input == found@.map_values(|a: AppInfo| a@),
            apps@.map_values(|a: AppInfo| a@) == first_occurrences(input.take(i as int)),
        decreases found.len() - i,
    {
        let ghost kept = apps@.map_values(|a: AppInfo| a@);
        let candidate = &found[i];
        let mut seen = false;
        let mut k: usize = 0;
        while k < apps.len()
            invariant
                k <= apps.len(),
                kept == apps@.map_values(|a: AppInfo| a@),
                seen == exists|j: int| 0 <= j < k && same_app_at(kept, j, candidate@),
            decreases apps.len() - k,
        {
            let hit = apps[k].identifier.same_as(&candidate.identifier);
            assert(kept[k as int] == apps@[k as int]@);
            if hit {
                assert(same_app_at(kept, k as int, candidate@));
                seen = true;
            }
            k = k + 1;
        }
        assert(input.take(i + 1).drop_last() =~= input.take(i as int));
        assert(input.take(i + 1).last() == candidate@);
        assert(seen == covers(kept, candidate@.identifier)) by {
            if seen {
                let j = choose|j: int| 0 <= j < k && same_app_at(kept, j, candidate@);
                assert(same_app(kept[j].identifier, candidate@.identifier));
            }
            if covers(kept, candidate@.identifier) {
                let j = choose|j: int| 0 <= j < kept.len() && same_app(#[trigger] kept[j].identifier, candidate@.identifier);
                assert(same_app_at(kept, j, candidate@));
            }
        }
        if !seen {
            apps.push(candidate.duplicate());
            assert(apps@.map_values(|a: AppInfo| a@) =~= kept.push(candidate@));
        }
        i = i + 1;
    }
    assert(input.take(i as int) =~= input);
    apps
}

spec fn same_app_at(kept: Seq<AppInfoView>, j: int, app: AppInfoView) -> bool {
    crate::applock::identifier::same_app(kept[j].identifier, app.identifier)
}


/// Where the splitting of an `Exec` command line stands: the words finished so far,
/// the word being read, and whether a double or a single quote is open.
pub struct SplitState {
    pub words: Seq<Seq<char>>,
    pub current: Seq<char>,
    pub in_double: bool,
    pub in_single: bool,
}

pub open spec fn split_start() -> SplitState {
    SplitState { words: Seq::empty(), current: Seq::empty(), in_double: false, in_single: false }
}

/// Splits `s` from position `i` on, in state `st`: blanks (space, tab) outside quotes
/// end a word; quotes group characters and are dropped; inside double quotes a
/// backslash before `"`, `\` or `$` stands for that character, before any other
/// character it stays, and at the very end it is dropped.
pub open spec fn split_from(s: Seq<char>, i: int, st: SplitState) -> SplitState
    decreases s.len() - i,
{
    if i < 0 || i >= s.len() {
        st
    } else {
        let c = s[i];
        if st.in_double {
            if c == '"' {
                split_from(s, i + 1, SplitState { in_double: false, ..st })
            } else if c == '\\' {
                if i + 1 < s.len() {
                    let n = s[i + 1];
                    let current = if n == '"' || n == '\\' || n == '$' {
                        st.current.push(n)
                    } else {
                        st.current.push('\\').push(n)
                    };
                    split_from(s, i + 2, SplitState { current, ..st })
                } else {
                    split_from(s, i + 1, st)
                }
            } else {
                split_from(s, i + 1, SplitState { current: st.current.push(c), ..st })
            }
        } else if st.in_single {
            if c == '\'' {
                split_from(s, i + 1, SplitState { in_single: false, ..st })
            } else {
                split_from(s, i + 1, SplitState { current: st.current.push(c), ..st })
            }
        } else if c == '"' {
            split_from(s, i + 1, SplitState { in_double: true, ..st })
        } else if c == '\'' {
            split_from(s, i + 1, SplitState { in_single: true, ..st })
        } else if c == ' ' || c == '\t' {
            if st.current.len() > 0 {
                split_from(
                    s,
                    i + 1,
                    SplitState { words: st.words.push(st.current), current: Seq::empty(), ..st },
                )
            } else {
                split_from(s, i + 1, st)
            }
        } else {
            split_from(s, i + 1, SplitState { current: st.current.push(c), ..st })
        }
    }
}

/// The words of a command line, before field codes are removed.
pub open spec fn split_words(s: Seq<char>) -> Seq<Seq<char>> {
    let st = split_from(s, 0, split_start());
    if st.current.len() > 0 {
        st.words.push(st.current)
    } else {
        st.words
    }
}

/// The characters that follow `%` in a field code of a desktop entry's `Exec` key.
pub open spec fn is_field_code_letter(c: char) -> bool {
    c == 'f' || c == 'F' || c == 'u' || c == 'U' || c == 'c' || c == 'C' || c == 'k' || c == 'V'
        || c == 'd' || c == 'D' || c == 'n' || c == 'N' || c == 'v' || c == 'm'
}

/// The regular expression that matches one field code.
pub open spec fn field_code_pattern() -> Seq<char> {
    "%[fFuUcCkVdDnNvVm]"@
}

/// `s` with its field codes removed, scanning from the left: a `%` followed by a
/// field code letter is dropped together with the letter.
pub open spec fn without_field_codes(s: Seq<char>) -> Seq<char>
    decreases s.len(),
{
    if s.len() < 2 {
        s
    } else if s[0] == '%' && is_field_code_letter(s[1]) {
        without_field_codes(s.skip(2))
    } else {
        seq![s[0]] + without_field_codes(s.skip(1))
    }
}

/// `s` with each `%%`, scanning from the left, replaced by `%`.
pub open spec fn collapse_percents(s: Seq<char>) -> Seq<char>
    decreases s.len(),
{
    if s.len() < 2 {
        s
    } else if s[0] == '%' && s[1] == '%' {
        seq!['%'] + collapse_percents(s.skip(2))
    } else {
        seq![s[0]] + collapse_percents(s.skip(1))
    }
}

/// A word after its field codes are removed and `%%` is read as `%`.
pub open spec fn clean_word(w: Seq<char>) -> Seq<char> {
    collapse_percents(without_field_codes(w))
}

/// The cleaned words, without those left empty.
pub open spec fn clean_words(words: Seq<Seq<char>>) -> Seq<Seq<char>>
    decreases words.len(),
{
    if words.len() == 0 {
        Seq::empty()
    } else {
        let rest = clean_words(words.drop_last());
        let w = clean_word(words.last());
        if w.len() > 0 {
            rest.push(w)
        } else {
            rest
        }
    }
}

/// The arguments of an `Exec` command line: its words, cleaned; none where the line
/// has no word or no word survives the cleaning.
pub open spec fn exec_arguments(s: Seq<char>) -> Option<Seq<Seq<char>>> {
    let words = split_words(s);
    if words.len() == 0 {
        None
    } else if clean_words(words).len() == 0 {
        None
    } else {
        Some(clean_words(words))
    }
}


/// `regex::Regex::new(pattern)` followed by `Regex::replace_all(word, "")`, the
/// pattern being the field-code pattern `%[fFuUcCkVdDnNvVm]`: the contract claims
/// that this pattern compiles, and that replacing all of its non-overlapping matches,
/// found from the left, by nothing gives `without_field_codes(word)`.
#[verifier::external_body]
fn replace_field_codes(pattern: &str, word: &str) -> (r: Option<String>)
    requires
        pattern@ == field_code_pattern(),
    ensures
        r is Some,
        r.deep_view() == Some(without_field_codes(word@)),
{
    let re = regex::Regex::new(pattern).ok()?;
    Some(re.replace_all(word, "").to_string())
}

/// `s` with each `%%`, from the left, replaced by `%`.
pub fn collapse_percent_pairs(s: &str) -> (r: String)
    ensures
        r@ == collapse_percents(s@),
{
    let v = chars_of(s);
    let mut out: Vec<char> = Vec::new();
    let mut i: usize = 0;
    assert(v@.skip(0) =~= v@);
    while i < v.len()
        invariant
            i <= v.len(),
            v@ == s@,
            out@ + collapse_percents(v@.skip(i as int)) == collapse_percents(s@),
        decreases v.len() - i,
    {
        let ghost rest = v@.skip(i as int);
        if i + 1 < v.len() && v[i] == '%' && v[i + 1] == '%' {
            assert(rest.skip(2) =~= v@.skip(i + 2));
            assert(collapse_percents(rest) == seq!['%'] + collapse_percents(rest.skip(2)));
            out.push('%');
            i = i + 2;
        } else {
            proof {
                if rest.len() >= 2 {
                    assert(rest.skip(1) =~= v@.skip(i + 1));
                    assert(collapse_percents(rest) == seq![rest[0]] + collapse_percents(rest.skip(1)));
                } else {
                    assert(v@.skip(i + 1).len() == 0);
                    assert(collapse_percents(rest) == rest);
                    assert(rest =~= seq![rest[0]] + v@.skip(i + 1));
                }
            }
            out.push(v[i]);
            i = i + 1;
        }
    }
    assert(v@.skip(i as int) =~= Seq::<char>::empty());
    assert(out@ + Seq::<char>::empty() =~= out@);
    string_of(&out)
}


spec fn words_view(words: Seq<Vec<char>>) -> Seq<Seq<char>> {
    words.map_values(|w: Vec<char>| w@)
}

/// Splits a command line into words (see `split_words`).
fn split_command_line(line: &str) -> (words: Vec<Vec<char>>)
    ensures
        words_view(words@) == split_words(line@),
{
    let chars = chars_of(line);
    let mut words: Vec<Vec<char>> = Vec::new();
    let mut current: Vec<char> = Vec::new();
    let mut in_double = false;
    let mut in_single = false;
    let mut i: usize = 0;
    assert(words_view(words@) =~= Seq::<Seq<char>>::empty());
    while i < chars.len()
        invariant
            i <= chars.len(),
            chars@ == line@,
            split_from(
                chars@,
                i as int,
                SplitState { words: words_view(words@), current: current@, in_double, in_single },
            ) == split_from(chars@, 0, split_start()),
        decreases chars.len() - i,
    {
        let c = chars[i];
        let ghost st = SplitState { words: words_view(words@), current: current@, in_double, in_single };
        let ghost i0 = i;
        let ghost words0 = words@;
        if in_double {
            if c == '"' {
                in_double = false;
                i = i + 1;
            } else if c == '\\' {
                if i + 1 < chars.len() {
                    let n = chars[i + 1];
                    if n == '"' || n == '\\' || n == '$' {
                        current.push(n);
                    } else {
                        current.push('\\');
                        current.push(n);
                    }
                    i = i + 2;
                } else {
                    i = i + 1;
                }
            } else {
                current.push(c);
                i = i + 1;
            }
        } else if in_single {
            if c == '\'' {
                in_single = false;
            } else {
                current.push(c);
            }
            i = i + 1;
        } else if c == '"' {
            in_double = true;
            i = i + 1;
        } else if c == '\'' {
            in_single = true;
            i = i + 1;
        } else if c == ' ' || c == '\t' {
            if current.len() > 0 {
                let word = current;
                current = Vec::new();
                words.push(word);
                assert(words_view(words@) =~= words_view(words0).push(word@));
            }
            i = i + 1;
        } else {
            current.push(c);
            i = i + 1;
        }
        assert(split_from(chars@, i0 as int, st) == split_from(
            chars@,
            i as int,
            SplitState { words: words_view(words@), current: current@, in_double, in_single },
        ));
    }
    if current.len() > 0 {
        let ghost before = words@;
        words.push(current);
        assert(words_view(words@) =~= words_view(before).push(words@.last()@));
    }
    words
}


/// The arguments of a desktop entry's `Exec` command line (see `exec_arguments`):
/// the line is split into words as a shell would, field codes such as `%f` or `%U`
/// are removed and `%%` is read as `%`; words left empty are dropped. `None` where
/// nothing is left.
pub fn tokenize_exec(exec_cmd: &str) -> (r: Option<Vec<String>>)
    ensures
        match r {
            Some(v) => exec_arguments(exec_cmd@) == Some(strings_view(v@)),
            None => exec_arguments(exec_cmd@) is None,
        },
{
    let words = split_command_line(exec_cmd);
    if words.len() == 0 {
        return None;
    }
    let ghost all = words_view(words@);
    let mut result: Vec<String> = Vec::new();
    let mut i: usize = 0;
    assert(all.take(0) =~= Seq::<Seq<char>>::empty());
    assert(strings_view(result@) =~= Seq::<Seq<char>>::empty());
    while i < words.len()
        invariant
            i <= words.len(),
            all == words_view(words@),
            strings_view(result@) == clean_words(all.take(i as int)),
        decreases words.len() - i,
    {
        let word = string_of(&words[i]);
        let stripped = match replace_field_codes("%[fFuUcCkVdDnNvVm]", word.as_str()) {
            Some(s) => s,
            None => return None,
        };
        let cleaned = collapse_percent_pairs(stripped.as_str());
        assert(all.take(i + 1).drop_last() =~= all.take(i as int));
        assert(all.take(i + 1).last() == words@[i as int]@);
        let ghost before = result@;
        if !cleaned.as_str().is_empty() {
            result.push(cleaned);
            assert(strings_view(result@) =~= strings_view(before).push(cleaned@));
        }
        i = i + 1;
    }
    assert(all.take(i as int) =~= all);
    if result.len() == 0 {
        None
    } else {
        Some(result)
    }
}


/// What an `Exec` command line says about the program it starts.
#[derive(Clone, Debug)]
pub enum ExecTarget {
    /// A path to take as it is written.
    Direct(String),
    /// A name or relative path to resolve: made canonical where it names an existing
    /// file, else looked up in the directories of `PATH`.
    Resolve(String),
    /// A Flatpak application, with the command that the line names, if any (else the
    /// command recorded in the application's metadata).
    Flatpak { app_id: String, command: Option<String> },
}

/// The mathematical model of an `ExecTarget`.
pub enum TargetView {
    Direct(Seq<char>),
    Resolve(Seq<char>),
    Flatpak(Seq<char>, Option<Seq<char>>),
}

impl View for ExecTarget {
    type V = TargetView;

    open spec fn view(&self) -> TargetView {
        match self {
            ExecTarget::Direct(p) => TargetView::Direct(p@),
            ExecTarget::Resolve(p) => TargetView::Resolve(p@),
            ExecTarget::Flatpak { app_id, command } => TargetView::Flatpak(
                app_id@,
                command.deep_view(),
            ),
        }
    }
}

impl DeepView for ExecTarget {
    type V = TargetView;

    open spec fn deep_view(&self) -> TargetView {
        self@
    }
}

/// A path written from the root is taken as it is; anything else is resolved.
pub open spec fn rooted_or_resolved(t: Seq<char>) -> TargetView {
    if has_prefix(t, "/"@) {
        TargetView::Direct(t)
    } else {
        TargetView::Resolve(t)
    }
}

/// `env NAME=VALUE ...`: the value of the first assignment, to resolve.
pub open spec fn env_target(tokens: Seq<Seq<char>>) -> Option<TargetView> {
    if tokens.len() >= 2 && tokens[1].contains('=') && second_field(tokens[1], '=').unwrap().len() > 0 {
        Some(TargetView::Resolve(second_field(tokens[1], '=').unwrap()))
    } else {
        None
    }
}

/// The options of `flatpak run`, from position `i` on, then the application id.
pub open spec fn flatpak_from(tokens: Seq<Seq<char>>, i: int, command: Option<Seq<char>>) -> Option<TargetView>
    decreases tokens.len() - i,
{
    if i < 0 || i >= tokens.len() {
        None
    } else if has_prefix(tokens[i], "-"@) {
        if tokens[i] == "--command"@ && i + 1 < tokens.len() {
            flatpak_from(tokens, i + 2, Some(tokens[i + 1]))
        } else if has_prefix(tokens[i], "--command="@) {
            flatpak_from(tokens, i + 1, Some(tokens[i].skip("--command="@.len() as int)))
        } else {
            flatpak_from(tokens, i + 1, command)
        }
    } else {
        Some(TargetView::Flatpak(tokens[i], command))
    }
}

/// `flatpak run [options] APP_ID ...`.
pub open spec fn flatpak_target(tokens: Seq<Seq<char>>) -> Option<TargetView> {
    if tokens.len() < 2 || tokens[1] != "run"@ {
        None
    } else {
        flatpak_from(tokens, 2, None)
    }
}

/// `java ... -jar FILE ...`: the first `-jar` that has an argument after it.
pub open spec fn java_from(tokens: Seq<Seq<char>>, i: int) -> Option<TargetView>
    decreases tokens.len() - i,
{
    if i < 0 || i >= tokens.len() {
        None
    } else if tokens[i] == "-jar"@ && i + 1 < tokens.len() {
        Some(rooted_or_resolved(tokens[i + 1]))
    } else {
        java_from(tokens, i + 1)
    }
}

/// `python [options] SCRIPT ...`: the first argument from position `i` that is not an
/// option; none where `-m` or `-c` comes first.
pub open spec fn python_from(tokens: Seq<Seq<char>>, i: int) -> Option<TargetView>
    decreases tokens.len() - i,
{
    if i < 0 || i >= tokens.len() {
        None
    } else if has_prefix(tokens[i], "-"@) {
        if tokens[i] == "-m"@ || tokens[i] == "-c"@ {
            None
        } else {
            python_from(tokens, i + 1)
        }
    } else {
        Some(rooted_or_resolved(tokens[i]))
    }
}

/// `node|perl|ruby SCRIPT ...`: the script, to resolve.
pub open spec fn script_target(tokens: Seq<Seq<char>>) -> Option<TargetView> {
    if tokens.len() < 2 {
        None
    } else {
        Some(TargetView::Resolve(tokens[1]))
    }
}

/// `sh|bash|zsh SCRIPT ...`: the script; none for `-c`.
pub open spec fn shell_target(tokens: Seq<Seq<char>>) -> Option<TargetView> {
    if tokens.len() < 2 || tokens[1] == "-c"@ {
        None
    } else {
        Some(rooted_or_resolved(tokens[1]))
    }
}

/// The program an `Exec` line starts, from its arguments: by the file name of the first
/// argument, the interpreters and launchers above are looked through; any other first
/// argument is the program itself, taken as it is where it holds a `/`.
pub open spec fn target_of_arguments(tokens: Seq<Seq<char>>) -> Option<TargetView> {
    target_from(tokens, path_file_name(tokens[0]))
}

/// The program an `Exec` line starts, from its arguments and the file name of the first
/// argument (`first_name`, none where it has none): the interpreters and launchers
/// named above are looked through; any other first argument is the program itself,
/// taken as it is where it holds a `/`. None where there is no argument.
pub open spec fn target_from(tokens: Seq<Seq<char>>, first_name: Option<Seq<char>>) -> Option<TargetView> {
    let exe = match first_name {
        Some(n) => n,
        None => Seq::empty(),
    };
    if tokens.len() == 0 {
        None
    } else if exe == "env"@ {
        env_target(tokens)
    } else if exe == "flatpak"@ {
        flatpak_target(tokens)
    } else if exe == "java"@ || exe == "javaw"@ {
        java_from(tokens, 0)
    } else if exe == "python"@ || exe == "python2"@ || exe == "python3"@ {
        python_from(tokens, 1)
    } else if exe == "node"@ || exe == "perl"@ || exe == "ruby"@ {
        script_target(tokens)
    } else if exe == "sh"@ || exe == "bash"@ || exe == "zsh"@ {
        shell_target(tokens)
    } else if tokens[0].contains('/') {
        Some(TargetView::Direct(tokens[0]))
    } else {
        Some(TargetView::Resolve(tokens[0]))
    }
}

/// The program that an `Exec` command line starts.
pub open spec fn exec_target(line: Seq<char>) -> Option<TargetView> {
    match exec_arguments(line) {
        Some(tokens) => target_of_arguments(tokens),
        None => None,
    }
}


fn rooted_or_resolve(t: &String) -> (r: ExecTarget)
    ensures
        r@ == rooted_or_resolved(t@),
{
    if starts_with(t.as_str(), "/") {
        ExecTarget::Direct(t.clone())
    } else {
        ExecTarget::Resolve(t.clone())
    }
}

/// `flatpak run [options] APP_ID ...` (see `flatpak_target`).
pub fn extract_flatpak_binary(tokens: &Vec<String>) -> (r: Option<ExecTarget>)
    ensures
        r.deep_view() == flatpak_target(strings_view(tokens@)),
{
    let ghost ts = strings_view(tokens@);
    if tokens.len() < 2 || !same_text(tokens[1].as_str(), "run") {
        return None;
    }
    let mut i: usize = 2;
    let mut command: Option<String> = None;
    while i < tokens.len() && starts_with(tokens[i].as_str(), "-")
        invariant
            2 <= i,
            ts == strings_view(tokens@),
            flatpak_from(ts, i as int, command.deep_view()) == flatpak_target(ts),
        decreases tokens.len() - i,
    {
        let token = &tokens[i];
        if same_text(token.as_str(), "--command") && i + 1 < tokens.len() {
            command = Some(tokens[i + 1].clone());
            i = i + 2;
        } else if starts_with(token.as_str(), "--command=") {
            let n = char_count("--command=");
            command = Some(text_from(token.as_str(), n));
            i = i + 1;
        } else {
            i = i + 1;
        }
    }
    if i < tokens.len() {
        Some(ExecTarget::Flatpak { app_id: tokens[i].clone(), command })
    } else {
        None
    }
}

/// `java ... -jar FILE ...` (see `java_from`).
pub fn extract_java_binary(tokens: &Vec<String>) -> (r: Option<ExecTarget>)
    ensures
        r.deep_view() == java_from(strings_view(tokens@), 0),
{
    let ghost ts = strings_view(tokens@);
    let mut i: usize = 0;
    while i < tokens.len()
        invariant
            i <= tokens.len(),
            ts == strings_view(tokens@),
            java_from(ts, i as int) == java_from(ts, 0),
        decreases tokens.len() - i,
    {
        if same_text(tokens[i].as_str(), "-jar") && i + 1 < tokens.len() {
            return Some(rooted_or_resolve(&tokens[i + 1]));
        }
        i = i + 1;
    }
    None
}

/// `python [options] SCRIPT ...` (see `python_from`).
pub fn extract_python_binary(tokens: &Vec<String>) -> (r: Option<ExecTarget>)
    ensures
        r.deep_view() == python_from(strings_view(tokens@), 1),
{
    let ghost ts = strings_view(tokens@);
    let mut i: usize = 1;
    while i < tokens.len()
        invariant
            1 <= i,
            ts == strings_view(tokens@),
            python_from(ts, i as int) == python_from(ts, 1),
        decreases tokens.len() - i,
    {
        let token = &tokens[i];
        if starts_with(token.as_str(), "-") {
            if same_text(token.as_str(), "-m") || same_text(token.as_str(), "-c") {
                return None;
            }
            i = i + 1;
        } else {
            return Some(rooted_or_resolve(token));
        }
    }
    None
}

/// `node|perl|ruby SCRIPT ...` (see `script_target`); the interpreter's name plays
/// no part.
pub fn extract_script_binary(tokens: &Vec<String>, _interpreter: &[&str]) -> (r: Option<ExecTarget>)
    ensures
        r.deep_view() == script_target(strings_view(tokens@)),
{
    if tokens.len() < 2 {
        return None;
    }
    Some(ExecTarget::Resolve(tokens[1].clone()))
}

/// `sh|bash|zsh SCRIPT ...` (see `shell_target`).
pub fn extract_shell_binary(tokens: &Vec<String>) -> (r: Option<ExecTarget>)
    ensures
        r.deep_view() == shell_target(strings_view(tokens@)),
{
    if tokens.len() < 2 {
        return None;
    }
    if same_text(tokens[1].as_str(), "-c") {
        return None;
    }
    Some(rooted_or_resolve(&tokens[1]))
}


/// The program that a desktop entry's `Exec` command line starts (see `exec_target`):
/// `None` where the line names none that can be found from the line alone.
pub fn extract_binary_from_exec(exec_cmd: &str) -> (r: Option<ExecTarget>)
    ensures
        r.deep_view() == exec_target(exec_cmd@),
{
    let tokens = match tokenize_exec(exec_cmd) {
        Some(t) => t,
        None => return None,
    };
    if tokens.len() == 0 {
        return None;
    }
    let first_name = file_name_of(tokens[0].as_str());
    exec_target_from(&tokens, first_name)
}

/// The program an `Exec` line starts, from its arguments and the file name of its first
/// argument (see `target_from`).
pub fn exec_target_from(tokens: &Vec<String>, first_name: Option<String>) -> (r: Option<ExecTarget>)
    ensures
        r.deep_view() == target_from(strings_view(tokens@), first_name.deep_view()),
{
    if tokens.len() == 0 {
        return None;
    }
    let first = &tokens[0];
    let exe = match first_name {
        Some(n) => n,
        None => String::new(),
    };
    let e = exe.as_str();
    if same_text(e, "env") {
        if tokens.len() >= 2 && contains_char(tokens[1].as_str(), '=') {
            match split_second(tokens[1].as_str(), '=') {
                Some(value) => {
                    if !value.as_str().is_empty() {
                        return Some(ExecTarget::Resolve(value));
                    }
                },
                None => {},
            }
        }
        return None;
    }
    if same_text(e, "flatpak") {
        extract_flatpak_binary(tokens)
    } else if same_text(e, "java") || same_text(e, "javaw") {
        extract_java_binary(tokens)
    } else if same_text(e, "python") || same_text(e, "python2") || same_text(e, "python3") {
        extract_python_binary(tokens)
    } else if same_text(e, "node") {
        extract_script_binary(tokens, &["node"])
    } else if same_text(e, "perl") {
        extract_script_binary(tokens, &["perl"])
    } else if same_text(e, "ruby") {
        extract_script_binary(tokens, &["ruby"])
    } else if same_text(e, "sh") || same_text(e, "bash") || same_text(e, "zsh") {
        extract_shell_binary(tokens)
    } else if contains_char(first.as_str(), '/') {
        Some(ExecTarget::Direct(first.clone()))
    } else {
        Some(ExecTarget::Resolve(first.clone()))
    }
}


/// One entry of a group of a desktop file, as plain text: its key, its locale (for a
/// key written `Key[locale]`) and its value, each where the entry has one.
#[derive(Clone, Debug)]
pub struct DesktopLine {
    pub key: Option<String>,
    pub locale: Option<String>,
    pub value: Option<String>,
}

/// The mathematical model of a desktop file entry.
pub struct DesktopLineView {
    pub key: Option<Seq<char>>,
    pub locale: Option<Seq<char>>,
    pub value: Option<Seq<char>>,
}

impl View for DesktopLine {
    type V = DesktopLineView;

    open spec fn view(&self) -> DesktopLineView {
        DesktopLineView {
            key: self.key.deep_view(),
            locale: self.locale.deep_view(),
            value: self.value.deep_view(),
        }
    }
}

impl DeepView for DesktopLine {
    type V = DesktopLineView;

    open spec fn deep_view(&self) -> DesktopLineView {
        self@
    }
}

/// The entries, in file order, of the first group named `group` in the desktop file
/// `content`; none where the file does not parse or has no such group.
pub uninterp spec fn desktop_group_lines(content: Seq<char>, group: Seq<char>) -> Option<Seq<DesktopLineView>>;

/// `desktop_edit::Desktop::from_str`, `Desktop::get_group` and `Group::entries`, each
/// entry read back through `Entry::key`, `Entry::locale` and `Entry::value`: the
/// contract names the result `desktop_group_lines`.
#[verifier::external_body]
fn read_desktop_group(content: &str, group: &str) -> (r: Option<Vec<DesktopLine>>)
    ensures
        r.deep_view() == desktop_group_lines(content@, group@),
{
    let desktop: desktop_edit::Desktop = content.parse().ok()?;
    let found = desktop.get_group(group)?;
    let mut lines = Vec::new();
    for e in found.entries() {
        lines.push(DesktopLine { key: e.key(), locale: e.locale(), value: e.value() });
    }
    Some(lines)
}

/// The value of the first entry with key `key` and locale `locale` (no locale for
/// `None`), as `desktop_edit::Group::get` and `Group::get_locale` find it: none where
/// no entry matches or the first that matches has no value.
pub open spec fn lookup(lines: Seq<DesktopLineView>, key: Seq<char>, locale: Option<Seq<char>>) -> Option<Seq<char>>
    decreases lines.len(),
{
    if lines.len() == 0 {
        None
    } else if lines[0].key == Some(key) && lines[0].locale == locale {
        lines[0].value
    } else {
        lookup(lines.drop_first(), key, locale)
    }
}

fn find_value(lines: &Vec<DesktopLine>, key: &str, locale: Option<&str>) -> (r: Option<String>)
    ensures
        r.deep_view() == lookup(lines.deep_view(), key@, match locale {
            Some(l) => Some(l@),
            None => None,
        }),
{
    let ghost ls = lines.deep_view();
    let ghost loc = match locale {
        Some(l) => Some(l@),
        None => None::<Seq<char>>,
    };
    let mut i: usize = 0;
    assert(ls.skip(0) =~= ls);
    while i < lines.len()
        invariant
            i <= lines.len(),
            ls == lines.deep_view(),
            loc == match locale {
                Some(l) => Some(l@),
                None => None::<Seq<char>>,
            },
            lookup(ls.skip(i as int), key@, loc) == lookup(ls, key@, loc),
        decreases lines.len() - i,
    {
        let line = &lines[i];
        let key_matches = match &line.key {
            Some(k) => same_text(k.as_str(), key),
            None => false,
        };
        let locale_matches = match &line.locale {
            Some(a) => match locale {
                Some(b) => same_text(a.as_str(), b),
                None => false,
            },
            None => locale.is_none(),
        };
        assert(ls.skip(i as int)[0] == line@);
        assert(key_matches == (line@.key == Some(key@)));
        assert(locale_matches == (line@.locale == loc));
        if key_matches && locale_matches {
            return match &line.value {
                Some(v) => Some(v.clone()),
                None => None,
            };
        }
        assert(ls.skip(i as int).drop_first() =~= ls.skip(i + 1));
        i = i + 1;
    }
    None
}

/// What a desktop file tells of the application it launches: the name to show, and
/// the program that its `Exec` line starts.
#[derive(Clone, Debug)]
pub struct DesktopApp {
    pub name: String,
    pub target: ExecTarget,
}

/// The mathematical model of a `DesktopApp`.
pub struct DesktopAppView {
    pub name: Seq<char>,
    pub target: TargetView,
}

impl View for DesktopApp {
    type V = DesktopAppView;

    open spec fn view(&self) -> DesktopAppView {
        DesktopAppView { name: self.name@, target: self.target@ }
    }
}

impl DeepView for DesktopApp {
    type V = DesktopAppView;

    open spec fn deep_view(&self) -> DesktopAppView {
        self@
    }
}

/// The name of the application, from the entries of its `Desktop Entry` group: the
/// `Name` for the empty locale where there is one, else the plain `Name`.
pub open spec fn entry_name(lines: Seq<DesktopLineView>) -> Option<Seq<char>> {
    match lookup(lines, "Name"@, Some(""@)) {
        Some(n) => Some(n),
        None => lookup(lines, "Name"@, None),
    }
}

/// The application a desktop file launches: only for an entry of type `Application`
/// that is neither `NoDisplay` nor `Hidden`, and that has a name and an `Exec` line
/// that names a program.
pub open spec fn desktop_app(content: Seq<char>) -> Option<DesktopAppView> {
    app_of_entry(desktop_group_lines(content, "Desktop Entry"@))
}

/// The application that a `Desktop Entry` group describes, from its entries (none
/// where the file has no such group; see `desktop_app`).
pub open spec fn app_of_entry(group: Option<Seq<DesktopLineView>>) -> Option<DesktopAppView> {
    match group {
        None => None,
        Some(lines) => {
            if lookup(lines, "Type"@, None) != Some("Application"@) {
                None
            } else if lookup(lines, "NoDisplay"@, None) == Some("true"@) {
                None
            } else if lookup(lines, "Hidden"@, None) == Some("true"@) {
                None
            } else {
                match entry_name(lines) {
                    None => None,
                    Some(name) => match lookup(lines, "Exec"@, None) {
                        None => None,
                        Some(exec) => match exec_target(exec) {
                            None => None,
                            Some(target) => Some(DesktopAppView { name, target }),
                        },
                    },
                }
            }
        }
    }
}

/// Reads the application that a desktop file launches (see `desktop_app`).
pub fn parse_desktop_file(content: &str) -> (r: Option<DesktopApp>)
    ensures
        r.deep_view() == desktop_app(content@),
{
    desktop_app_from(read_desktop_group(content, "Desktop Entry"))
}

/// The application that a `Desktop Entry` group describes, from its entries as the
/// desktop file parser gives them (see `app_of_entry`).
pub fn desktop_app_from(group: Option<Vec<DesktopLine>>) -> (r: Option<DesktopApp>)
    ensures
        r.deep_view() == app_of_entry(group.deep_view()),
{
    let lines = match group {
        Some(l) => l,
        None => return None,
    };
    let kind = match find_value(&lines, "Type", None) {
        Some(k) => k,
        None => return None,
    };
    if !same_text(kind.as_str(), "Application") {
        return None;
    }
    match find_value(&lines, "NoDisplay", None) {
        Some(v) => {
            if same_text(v.as_str(), "true") {
                return None;
            }
        },
        None => {},
    }
    match find_value(&lines, "Hidden", None) {
        Some(v) => {
            if same_text(v.as_str(), "true") {
                return None;
            }
        },
        None => {},
    }
    let name = match find_value(&lines, "Name", Some("")) {
        Some(n) => n,
        None => match find_value(&lines, "Name", None) {
            Some(n) => n,
            None => return None,
        },
    };
    let exec = match find_value(&lines, "Exec", None) {
        Some(e) => e,
        None => return None,
    };
    let target = match extract_binary_from_exec(exec.as_str()) {
        Some(t) => t,
        None => return None,
    };
    Some(DesktopApp { name, target })
}


/// The regular expression that finds the command in a Flatpak application's metadata.
pub open spec fn command_pattern() -> Seq<char> {
    "(?m)^command=(.*?)$"@
}

/// The command recorded in Flatpak metadata: the rest of the first line that starts
/// with `command=`, up to (not including) the line break.
pub open spec fn metadata_command(text: Seq<char>) -> Option<Seq<char>>
    decreases text.len(),
{
    let line = prefix_before(text, '\n');
    if has_prefix(line, "command="@) {
        Some(line.skip("command="@.len() as int))
    } else if text.contains('\n') {
        proof {
            lemma_suffix_after_shorter(text, '\n');
        }
        metadata_command(suffix_after(text, '\n'))
    } else {
        None
    }
}

/// `regex::Regex::new(pattern)`, then `Regex::captures` on `text` and the text of its
/// first group, the pattern being `(?m)^command=(.*?)$`: the contract claims that the
/// pattern compiles and that the group captures `metadata_command(text)`: in
/// multi-line mode `^` and `$` match at line starts and ends (`\n`), `.` does not
/// match `\n`, and the leftmost match is found first.
#[verifier::external_body]
fn capture_command(pattern: &str, text: &str) -> (r: Option<Option<String>>)
    requires
        pattern@ == command_pattern(),
    ensures
        r is Some,
        r.deep_view() == Some(metadata_command(text@)),
{
    let re = regex::Regex::new(pattern).ok()?;
    let Some(caps) = re.captures(text) else {
        return Some(None);
    };
    let Some(group) = caps.get(1) else {
        return Some(None);
    };
    Some(Some(group.as_str().to_string()))
}

/// The command recorded in a Flatpak application's metadata (see `metadata_command`).
pub fn flatpak_command(metadata: &str) -> (r: Option<String>)
    ensures
        r.deep_view() == metadata_command(metadata@),
{
    match capture_command("(?m)^command=(.*?)$", metadata) {
        Some(found) => found,
        None => None,
    }
}

/// Where Flatpak keeps an installed application's files.
pub open spec fn flatpak_app_dir(app_id: Seq<char>) -> Seq<char> {
    "/var/lib/flatpak/app/"@ + app_id + "/current/active/"@
}

/// The path of a Flatpak application's metadata.
pub fn flatpak_metadata_path(app_id: &str) -> (r: String)
    ensures
        r@ == flatpak_app_dir(app_id@) + "metadata"@,
{
    let dir = concat(concat("/var/lib/flatpak/app/", app_id).as_str(), "/current/active/");
    concat(dir.as_str(), "metadata")
}

/// The path of a command inside a Flatpak application's files.
pub fn flatpak_binary_path(app_id: &str, command: &str) -> (r: String)
    ensures
        r@ == flatpak_app_dir(app_id@) + "files/bin/"@ + command@,
{
    let dir = concat(concat("/var/lib/flatpak/app/", app_id).as_str(), "/current/active/");
    concat(concat(dir.as_str(), "files/bin/").as_str(), command)
}


/// The base directory for user data: `$XDG_DATA_HOME` where it is set, else
/// `.local/share` under the home directory, else nothing.
pub open spec fn data_home(xdg_data_home: Option<Seq<char>>, home: Option<Seq<char>>) -> Seq<char> {
    match xdg_data_home {
        Some(d) => d,
        None => match home {
            Some(h) => path_join(h, ".local/share"@),
            None => Seq::empty(),
        },
    }
}

/// The `applications` directories below the non-empty entries of a colon-separated
/// list, in order.
pub open spec fn application_subdirs(entries: Seq<Seq<char>>) -> Seq<Seq<char>>
    decreases entries.len(),
{
    if entries.len() == 0 {
        Seq::empty()
    } else {
        let rest = application_subdirs(entries.drop_last());
        if entries.last().len() > 0 {
            rest.push(entries.last() + "/applications"@)
        } else {
            rest
        }
    }
}

/// The directories that hold desktop entries, in the order they are searched: the
/// user's (below `data_home`), those of `$XDG_DATA_DIRS` (by default
/// `/usr/local/share:/usr/share`), and NixOS's system profile.
pub open spec fn application_dirs(
    xdg_data_home: Option<Seq<char>>,
    home: Option<Seq<char>>,
    xdg_data_dirs: Option<Seq<char>>,
) -> Seq<Seq<char>> {
    let data_dirs = match xdg_data_dirs {
        Some(d) => d,
        None => "/usr/local/share:/usr/share"@,
    };
    seq![data_home(xdg_data_home, home) + "/applications"@]
        + application_subdirs(split_fields(data_dirs, ':'))
        + seq!["/run/current-system/sw/share/applications"@]
}

/// The directories that hold desktop entries (see `application_dirs`), from the values
/// of `$XDG_DATA_HOME` and `$XDG_DATA_DIRS` (none where unset) and the home directory.
pub fn get_application_dirs(
    xdg_data_home: Option<String>,
    home: Option<String>,
    xdg_data_dirs: Option<String>,
) -> (dirs: Vec<String>)
    ensures
        strings_view(dirs@) == application_dirs(
            xdg_data_home.deep_view(),
            home.deep_view(),
            xdg_data_dirs.deep_view(),
        ),
{
    let base = match xdg_data_home {
        Some(d) => d,
        None => match home {
            Some(h) => join_path(h.as_str(), ".local/share"),
            None => String::new(),
        },
    };
    let mut dirs: Vec<String> = Vec::new();
    dirs.push(concat(base.as_str(), "/applications"));
    let data_dirs = match xdg_data_dirs {
        Some(d) => d,
        None => "/usr/local/share:/usr/share".to_owned(),
    };
    let entries = split_all(data_dirs.as_str(), ':');
    let ghost first = strings_view(dirs@);
    let ghost all = strings_view(entries@);
    let mut i: usize = 0;
    assert(all.take(0) =~= Seq::<Seq<char>>::empty());
    assert(strings_view(dirs@) =~= first + application_subdirs(all.take(0)));
    while i < entries.len()
        invariant
            i <= entries.len(),
            all == strings_view(entries@),
            strings_view(dirs@) == first + application_subdirs(all.take(i as int)),
        decreases entries.len() - i,
    {
        assert(all.take(i + 1).drop_last() =~= all.take(i as int));
        assert(all.take(i + 1).last() == entries@[i as int]@);
        let ghost before = dirs@;
        if !entries[i].as_str().is_empty() {
            let d = concat(entries[i].as_str(), "/applications");
            dirs.push(d);
            assert(strings_view(dirs@) =~= strings_view(before).push(d@));
        }
        i = i + 1;
    }
    assert(all.take(i as int) =~= all);
    let ghost before = dirs@;
    let nix = "/run/current-system/sw/share/applications".to_owned();
    dirs.push(nix);
    assert(strings_view(dirs@) =~= strings_view(before).push(nix@));
    dirs
}

/// The paths where a command is looked for, in order: the command below each entry of
/// a colon-separated search path (`PATH`).
pub open spec fn search_paths(path_var: Seq<char>, cmd: Seq<char>) -> Seq<Seq<char>> {
    split_fields(path_var, ':').map_values(|dir: Seq<char>| path_join(dir, cmd))
}

/// The paths where a command is looked for (see `search_paths`).
pub fn search_candidates(path_var: &str, cmd: &str) -> (r: Vec<String>)
    ensures
        strings_view(r@) == search_paths(path_var@, cmd@),
{
    let entries = split_all(path_var, ':');
    let ghost all = strings_view(entries@);
    let mut r: Vec<String> = Vec::new();
    let mut i: usize = 0;
    while i < entries.len()
        invariant
            i <= entries.len(),
            all == strings_view(entries@),
            strings_view(r@) == all.take(i as int).map_values(|dir: Seq<char>| path_join(dir, cmd@)),
        decreases entries.len() - i,
    {
        let p = join_path(entries[i].as_str(), cmd);
        let ghost before = r@;
        r.push(p);
        assert(strings_view(r@) =~= strings_view(before).push(p@));
        assert(all.take(i + 1).map_values(|dir: Seq<char>| path_join(dir, cmd@)) =~= all.take(i as int).map_values(
            |dir: Seq<char>| path_join(dir, cmd@),
        ).push(path_join(all[i as int], cmd@)));
        i = i + 1;
    }
    assert(all.take(i as int) =~= all);
    r
}

} // verus!
