use vstd::prelude::*;
use crate::applock::app_info::{AppInfoView, covers, first_occurrences};
use crate::applock::identifier::{IdentifierView, entered_identifier, identifier_text, same_app, stored_identifier};
use crate::applock::linux::{clean_words, exec_arguments, split_from, split_start, split_words, without_field_codes, collapse_percents, SplitState};
use crate::applock::paths::path_file_name;
use crate::applock::polling::{blocked_positions, is_blocked, matches_process};
use crate::applock::session::{first_identifiers, lists, started, stopped, updated, SessionView};
use crate::applock::app_info::AppInfo;

verus! {

proof fn lemma_kept_cover(found: Seq<AppInfoView>)
    ensures
        forall|i: int| #![trigger found[i]] 0 <= i < found.len() ==> (exists|k: int|
            0 <= k < first_occurrences(found).len() && (first_occurrences(found)[k] == found[i]
                || same_app(#[trigger] first_occurrences(found)[k].identifier, found[i].identifier))),
    decreases found.len(),
{
    if found.len() > 0 {
        let p = found.drop_last();
        lemma_kept_cover(p);
        let kp = first_occurrences(p);
        let kept = first_occurrences(found);
        assert forall|i: int| #![trigger found[i]] 0 <= i < found.len() implies (exists|k: int|
            0 <= k < kept.len() && (kept[k] == found[i] || same_app(#[trigger] kept[k].identifier, found[i].identifier))) by {
            if i < found.len() - 1 {
                assert(p[i] == found[i]);
                let k = choose|k: int| 0 <= k < kp.len() && (kp[k] == p[i] || same_app(#[trigger] kp[k].identifier, p[i].identifier));
                assert(kept[k] == kp[k]);
            } else if covers(kp, found.last().identifier) {
                let k = choose|k: int| 0 <= k < kp.len() && same_app(#[trigger] kp[k].identifier, found.last().identifier);
                assert(kept[k] == kp[k]);
            } else {
                assert(kept[kp.len() as int] == found[i]);
            }
        }
    }
}

proof fn lemma_kept_distinct(found: Seq<AppInfoView>)
    ensures
        forall|a: int, b: int|
            0 <= a < b < first_occurrences(found).len() ==> !same_app(
                #[trigger] first_occurrences(found)[a].identifier,
                #[trigger] first_occurrences(found)[b].identifier,
            ),
    decreases found.len(),
{
    if found.len() > 0 {
        let p = found.drop_last();
        lemma_kept_distinct(p);
        let kp = first_occurrences(p);
        let kept = first_occurrences(found);
        assert forall|a: int, b: int| 0 <= a < b < kept.len() implies !same_app(
            #[trigger] kept[a].identifier,
            #[trigger] kept[b].identifier,
        ) by {
            if b < kp.len() {
                assert(kept[a] == kp[a] && kept[b] == kp[b]);
            } else {
                assert(kept[a] == kp[a]);
                assert(!covers(kp, found.last().identifier));
            }
        }
    }
}

proof fn lemma_kept_origin(found: Seq<AppInfoView>)
    ensures
        forall|k: int| 0 <= k < first_occurrences(found).len() ==> exists|i: int|
            0 <= i < found.len() && found[i] == #[trigger] first_occurrences(found)[k],
    decreases found.len(),
{
    if found.len() > 0 {
        let p = found.drop_last();
        lemma_kept_origin(p);
        let kp = first_occurrences(p);
        let kept = first_occurrences(found);
        assert forall|k: int| 0 <= k < kept.len() implies exists|i: int|
            0 <= i < found.len() && found[i] == #[trigger] kept[k] by {
            if k < kp.len() {
                assert(kept[k] == kp[k]);
                let i = choose|i: int| 0 <= i < p.len() && p[i] == kp[k];
                assert(found[i] == p[i]);
            } else {
                assert(found[found.len() - 1] == kept[k]);
            }
        }
    }
}

proof fn lemma_kept_first(found: Seq<AppInfoView>)
    ensures
        found.len() > 0 ==> first_occurrences(found).len() > 0 && first_occurrences(found)[0] == found[0],
    decreases found.len(),
{
    if found.len() > 0 {
        let p = found.drop_last();
        lemma_kept_first(p);
        let kp = first_occurrences(p);
        if p.len() == 0 {
            assert(kp.len() == 0);
            assert(!covers(kp, found.last().identifier));
        } else {
            assert(found[0] == p[0]);
        }
    }
}

/// Deduplication keeps the first occurrence of each application: every entry found is
/// either kept or named by an entry kept before it; no two kept entries name the same
/// application; every kept entry is one of those found; and the first entry found is
/// always kept.
pub proof fn law_installed_apps_keep_first(found: Seq<AppInfoView>)
    ensures
        forall|i: int| #![trigger found[i]] 0 <= i < found.len() ==> (exists|k: int|
            0 <= k < first_occurrences(found).len() && (first_occurrences(found)[k] == found[i]
                || same_app(#[trigger] first_occurrences(found)[k].identifier, found[i].identifier))),
        forall|a: int, b: int|
            0 <= a < b < first_occurrences(found).len() ==> !same_app(
                #[trigger] first_occurrences(found)[a].identifier,
                #[trigger] first_occurrences(found)[b].identifier,
            ),
        forall|k: int| 0 <= k < first_occurrences(found).len() ==> exists|i: int|
            0 <= i < found.len() && found[i] == #[trigger] first_occurrences(found)[k],
        found.len() > 0 ==> first_occurrences(found)[0] == found[0],
{
    lemma_kept_cover(found);
    lemma_kept_distinct(found);
    lemma_kept_origin(found);
    lemma_kept_first(found);
}

/// A session blocks each listed application once: every listed identifier is blocked
/// or named by one blocked before it, and no two blocked identifiers name the same
/// application.
pub proof fn law_session_blocks_each_app_once(ids: Seq<IdentifierView>)
    ensures
        forall|i: int| #![trigger ids[i]] 0 <= i < ids.len() ==> (exists|k: int|
            0 <= k < first_identifiers(ids).len() && (first_identifiers(ids)[k] == ids[i]
                || same_app(#[trigger] first_identifiers(ids)[k], ids[i]))),
        forall|a: int, b: int|
            0 <= a < b < first_identifiers(ids).len() ==> !same_app(
                #[trigger] first_identifiers(ids)[a],
                #[trigger] first_identifiers(ids)[b],
            ),
    decreases ids.len(),
{
    if ids.len() > 0 {
        let p = ids.drop_last();
        law_session_blocks_each_app_once(p);
        let kp = first_identifiers(p);
        let kept = first_identifiers(ids);
        assert forall|i: int| #![trigger ids[i]] 0 <= i < ids.len() implies (exists|k: int|
            0 <= k < kept.len() && (kept[k] == ids[i] || same_app(#[trigger] kept[k], ids[i]))) by {
            if i < ids.len() - 1 {
                assert(p[i] == ids[i]);
                let k = choose|k: int| 0 <= k < kp.len() && (kp[k] == p[i] || same_app(#[trigger] kp[k], p[i]));
                assert(kept[k] == kp[k]);
            } else if lists(kp, ids.last()) {
                let k = choose|k: int| 0 <= k < kp.len() && same_app(#[trigger] kp[k], ids.last());
                assert(kept[k] == kp[k]);
            } else {
                assert(kept[kp.len() as int] == ids[i]);
            }
        }
        assert forall|a: int, b: int| 0 <= a < b < kept.len() implies !same_app(
            #[trigger] kept[a],
            #[trigger] kept[b],
        ) by {
            if b < kp.len() {
                assert(kept[a] == kp[a] && kept[b] == kp[b]);
            } else {
                assert(kept[a] == kp[a]);
                assert(!lists(kp, ids.last()));
            }
        }
    }
}

/// Process polling stops exactly the blocked processes: a position is selected if and
/// only if a blocked identifier matches that process, and the positions come in
/// increasing order.
pub proof fn law_kill_exactly_blocked(blocked: Seq<IdentifierView>, exes: Seq<Seq<char>>)
    ensures
        forall|i: int|
            blocked_positions(blocked, exes).contains(i) <==> (0 <= i < exes.len() && is_blocked(blocked, exes[i])),
        forall|a: int, b: int|
            0 <= a < b < blocked_positions(blocked, exes).len() ==> #[trigger] blocked_positions(blocked, exes)[a]
                < #[trigger] blocked_positions(blocked, exes)[b],
    decreases exes.len(),
{
    if exes.len() > 0 {
        let p = exes.drop_last();
        law_kill_exactly_blocked(blocked, p);
        let rp = blocked_positions(blocked, p);
        let r = blocked_positions(blocked, exes);
        assert forall|i: int| r.contains(i) <==> (0 <= i < exes.len() && is_blocked(blocked, exes[i])) by {
            if 0 <= i < exes.len() - 1 {
                assert(p[i] == exes[i]);
            }
            if r.contains(i) {
                let k = choose|k: int| 0 <= k < r.len() && r[k] == i;
                if k < rp.len() {
                    assert(r[k] == rp[k]);
                    assert(rp.contains(i));
                }
            }
            if 0 <= i < exes.len() && is_blocked(blocked, exes[i]) {
                if i < exes.len() - 1 {
                    assert(rp.contains(i));
                    let k = choose|k: int| 0 <= k < rp.len() && rp[k] == i;
                    assert(r[k] == rp[k]);
                } else {
                    assert(r[r.len() - 1] == i);
                }
            }
        }
        assert forall|a: int, b: int| 0 <= a < b < r.len() implies #[trigger] r[a] < #[trigger] r[b] by {
            if b < rp.len() {
                assert(r[a] == rp[a] && r[b] == rp[b]);
            } else {
                assert(r[a] == rp[a]);
                assert(rp.contains(rp[a]));
            }
        }
    }
}

/// Whether a process is stopped depends only on its executable's file name: two
/// executables with the same file name are both blocked or both not, wherever they
/// lie (a copy or a link under the same name is caught as well).
pub proof fn law_kill_by_file_name(blocked: Seq<IdentifierView>, exe1: Seq<char>, exe2: Seq<char>)
    requires
        path_file_name(exe1) == path_file_name(exe2),
    ensures
        is_blocked(blocked, exe1) == is_blocked(blocked, exe2),
{
    if is_blocked(blocked, exe1) {
        let k = choose|k: int| 0 <= k < blocked.len() && matches_process(#[trigger] blocked[k], exe1);
        assert(matches_process(blocked[k], exe2));
    }
    if is_blocked(blocked, exe2) {
        let k = choose|k: int| 0 <= k < blocked.len() && matches_process(#[trigger] blocked[k], exe2);
        assert(matches_process(blocked[k], exe1));
    }
}

proof fn lemma_clean_words_nonempty(words: Seq<Seq<char>>)
    ensures
        forall|i: int| 0 <= i < clean_words(words).len() ==> #[trigger] clean_words(words)[i].len() > 0,
    decreases words.len(),
{
    if words.len() > 0 {
        let rest = clean_words(words.drop_last());
        lemma_clean_words_nonempty(words.drop_last());
        let c = clean_words(words);
        assert forall|i: int| 0 <= i < c.len() implies #[trigger] c[i].len() > 0 by {
            if i < rest.len() {
                assert(c[i] == rest[i]);
            }
        }
    }
}

/// The arguments read from an `Exec` line are never empty words.
pub proof fn law_exec_arguments_nonempty(line: Seq<char>)
    ensures
        exec_arguments(line) matches Some(words) ==> words.len() > 0 && forall|i: int|
            0 <= i < words.len() ==> #[trigger] words[i].len() > 0,
{
    lemma_clean_words_nonempty(crate::applock::linux::split_words(line));
}


/// Storing an identifier as text and reading it back gives the same identifier, for a
/// path that holds `/` or the platform's separator and a bundle identifier that holds
/// neither (a path with no separator reads back as a bundle identifier).
pub proof fn law_identifier_text_round_trip(id: IdentifierView, separator: char)
    requires
        match id {
            IdentifierView::Path(p) => p.contains('/') || p.contains(separator),
            IdentifierView::BundleId(b) => !b.contains('/') && !b.contains(separator),
        },
    ensures
        stored_identifier(identifier_text(id), separator) == id,
{
}

/// Text entered for the block list and stored reads back as the identifier it was
/// entered as, on a platform whose separator is `/` or `\`.
pub proof fn law_entered_identifier_is_stored_alike(text: Seq<char>, separator: char)
    requires
        separator == '/' || separator == '\\',
        text.contains('/') || !text.contains('\\') || separator == '\\',
    ensures
        stored_identifier(identifier_text(entered_identifier(text)), separator) == entered_identifier(text),
{
}


/// A session that has been stopped ignores changes of its block list.
pub proof fn law_stopped_session_ignores_updates(apps: Seq<AppInfo>)
    ensures
        updated(stopped(), apps) == stopped(),
{
}

/// Changing the block list of a running session is the same as starting it anew with
/// the new list and the same end.
pub proof fn law_update_restarts_with_new_list(first: Seq<AppInfo>, second: Seq<AppInfo>, end: int)
    ensures
        updated(started(first, end), second) == started(second, end),
{
}

/// Changing the block list never turns a session on or off, nor moves its end.
pub proof fn law_update_keeps_state_and_end(s: SessionView, apps: Seq<AppInfo>)
    ensures
        updated(s, apps).active == s.active,
        updated(s, apps).end_time == s.end_time,
{
}

/// Whether `c` separates words of a command line.
pub open spec fn is_blank(c: char) -> bool {
    c == ' ' || c == '\t'
}

/// Whether the text holds no quote, backslash or percent sign.
pub open spec fn plain(s: Seq<char>) -> bool {
    forall|k: int| 0 <= k < s.len() ==> #[trigger] s[k] != '"' && s[k] != '\'' && s[k] != '\\' && s[k] != '%'
}

/// The fields of `s` split at every blank from position `i` on, with the fields `done`
/// finished and the field `current` being read (empty fields included).
pub open spec fn blank_fields_from(s: Seq<char>, i: int, done: Seq<Seq<char>>, current: Seq<char>) -> Seq<Seq<char>>
    decreases s.len() - i,
{
    if i < 0 || i >= s.len() {
        done.push(current)
    } else if is_blank(s[i]) {
        blank_fields_from(s, i + 1, done.push(current), Seq::empty())
    } else {
        blank_fields_from(s, i + 1, done, current.push(s[i]))
    }
}

/// The non-empty fields, in order.
pub open spec fn nonempty_fields(fields: Seq<Seq<char>>) -> Seq<Seq<char>>
    decreases fields.len(),
{
    if fields.len() == 0 {
        fields
    } else if fields.last().len() > 0 {
        nonempty_fields(fields.drop_last()).push(fields.last())
    } else {
        nonempty_fields(fields.drop_last())
    }
}

/// The words of a line split at blanks, empty ones left out.
pub open spec fn blank_words(s: Seq<char>) -> Seq<Seq<char>> {
    nonempty_fields(blank_fields_from(s, 0, Seq::empty(), Seq::empty()))
}

spec fn finished(st: SplitState) -> Seq<Seq<char>> {
    if st.current.len() > 0 {
        st.words.push(st.current)
    } else {
        st.words
    }
}

proof fn lemma_plain_split(s: Seq<char>, i: int, done: Seq<Seq<char>>, current: Seq<char>)
    requires
        plain(s),
        0 <= i <= s.len(),
    ensures
        finished(split_from(s, i, SplitState { words: nonempty_fields(done), current, in_double: false, in_single: false }))
            == nonempty_fields(blank_fields_from(s, i, done, current)),
    decreases s.len() - i,
{
    if i < s.len() {
        let c = s[i];
        assert(c != '"' && c != '\'' && c != '\\' && c != '%');
        let st = SplitState { words: nonempty_fields(done), current, in_double: false, in_single: false };
        if is_blank(c) {
            lemma_plain_split(s, i + 1, done.push(current), Seq::empty());
            assert(done.push(current).drop_last() =~= done);
            assert(blank_fields_from(s, i, done, current) == blank_fields_from(s, i + 1, done.push(current), Seq::empty()));
            if current.len() > 0 {
                assert(nonempty_fields(done.push(current)) == nonempty_fields(done).push(current));
                assert(split_from(s, i, st) == split_from(s, i + 1, SplitState {
                    words: nonempty_fields(done).push(current),
                    current: Seq::empty(),
                    ..st
                }));
            } else {
                assert(nonempty_fields(done.push(current)) == nonempty_fields(done));
                assert(current =~= Seq::<char>::empty());
                assert(split_from(s, i, st) == split_from(s, i + 1, st));
            }
        } else {
            lemma_plain_split(s, i + 1, done, current.push(c));
            assert(blank_fields_from(s, i, done, current) == blank_fields_from(s, i + 1, done, current.push(c)));
            assert(split_from(s, i, st) == split_from(s, i + 1, SplitState { current: current.push(c), ..st }));
        }
    } else {
        assert(done.push(current).drop_last() =~= done);
    }
}

proof fn lemma_fields_plain(s: Seq<char>, i: int, done: Seq<Seq<char>>, current: Seq<char>)
    requires
        plain(s),
        0 <= i <= s.len(),
        plain(current),
        forall|k: int| 0 <= k < done.len() ==> plain(#[trigger] done[k]),
    ensures
        forall|k: int| 0 <= k < blank_fields_from(s, i, done, current).len() ==> plain(
            #[trigger] blank_fields_from(s, i, done, current)[k],
        ),
    decreases s.len() - i,
{
    if i < s.len() {
        if is_blank(s[i]) {
            assert forall|k: int| 0 <= k < done.push(current).len() implies plain(#[trigger] done.push(current)[k]) by {
                if k < done.len() {
                    assert(done.push(current)[k] == done[k]);
                }
            }
            assert(plain(Seq::<char>::empty()));
            lemma_fields_plain(s, i + 1, done.push(current), Seq::empty());
            assert(blank_fields_from(s, i, done, current) == blank_fields_from(s, i + 1, done.push(current), Seq::empty()));
        } else {
            assert(plain(current.push(s[i]))) by {
                assert forall|k: int| 0 <= k < current.push(s[i]).len() implies #[trigger] current.push(s[i])[k] != '"'
                    && current.push(s[i])[k] != '\'' && current.push(s[i])[k] != '\\' && current.push(s[i])[k] != '%' by {
                    if k < current.len() {
                        assert(current.push(s[i])[k] == current[k]);
                    } else {
                        assert(current.push(s[i])[k] == s[i]);
                    }
                }
            }
            lemma_fields_plain(s, i + 1, done, current.push(s[i]));
            assert(blank_fields_from(s, i, done, current) == blank_fields_from(s, i + 1, done, current.push(s[i])));
        }
    } else {
        assert forall|k: int| 0 <= k < done.push(current).len() implies plain(#[trigger] done.push(current)[k]) by {
            if k < done.len() {
                assert(done.push(current)[k] == done[k]);
            }
        }
    }
}

proof fn lemma_nonempty_fields_keep(fields: Seq<Seq<char>>)
    requires
        forall|k: int| 0 <= k < fields.len() ==> plain(#[trigger] fields[k]),
    ensures
        forall|k: int| 0 <= k < nonempty_fields(fields).len() ==> plain(#[trigger] nonempty_fields(fields)[k])
            && nonempty_fields(fields)[k].len() > 0,
    decreases fields.len(),
{
    if fields.len() > 0 {
        let rest = fields.drop_last();
        assert forall|k: int| 0 <= k < rest.len() implies plain(#[trigger] rest[k]) by {
            assert(rest[k] == fields[k]);
        }
        lemma_nonempty_fields_keep(rest);
        let n = nonempty_fields(fields);
        assert forall|k: int| 0 <= k < n.len() implies plain(#[trigger] n[k]) && n[k].len() > 0 by {
            if k < nonempty_fields(rest).len() {
                assert(n[k] == nonempty_fields(rest)[k]);
            } else {
                assert(n[k] == fields.last());
                assert(fields.last() == fields[fields.len() - 1]);
            }
        }
    }
}

proof fn lemma_plain_word_clean(w: Seq<char>)
    requires
        plain(w),
    ensures
        without_field_codes(w) == w,
        collapse_percents(w) == w,
    decreases w.len(),
{
    if w.len() >= 2 {
        assert(w[0] != '%');
        let rest = w.skip(1);
        assert(plain(rest)) by {
            assert forall|k: int| 0 <= k < rest.len() implies #[trigger] rest[k] != '"' && rest[k] != '\''
                && rest[k] != '\\' && rest[k] != '%' by {
                assert(rest[k] == w[k + 1]);
            }
        }
        lemma_plain_word_clean(rest);
        assert(seq![w[0]] + rest =~= w);
    }
}

proof fn lemma_plain_words_clean(words: Seq<Seq<char>>)
    requires
        forall|k: int| 0 <= k < words.len() ==> plain(#[trigger] words[k]) && words[k].len() > 0,
    ensures
        clean_words(words) == words,
    decreases words.len(),
{
    if words.len() > 0 {
        let rest = words.drop_last();
        assert forall|k: int| 0 <= k < rest.len() implies plain(#[trigger] rest[k]) && rest[k].len() > 0 by {
            assert(rest[k] == words[k]);
        }
        lemma_plain_words_clean(rest);
        assert(words.last() == words[words.len() - 1]);
        lemma_plain_word_clean(words.last());
        assert(rest.push(words.last()) =~= words);
    }
}

/// An `Exec` line without quotes, backslashes or percent signs reads as its words split
/// at blanks (spaces and tabs), empty ones left out; none where there is no word.
pub proof fn law_plain_line_splits_at_blanks(line: Seq<char>)
    requires
        plain(line),
    ensures
        exec_arguments(line) == (if blank_words(line).len() == 0 {
            None
        } else {
            Some(blank_words(line))
        }),
{
    let d0: Seq<Seq<char>> = Seq::empty();
    assert(nonempty_fields(d0) =~= d0);
    lemma_plain_split(line, 0, d0, Seq::empty());
    assert(split_start() == SplitState { words: nonempty_fields(d0), current: Seq::<char>::empty(), in_double: false, in_single: false });
    assert(split_words(line) == blank_words(line));
    assert(plain(Seq::<char>::empty()));
    lemma_fields_plain(line, 0, d0, Seq::empty());
    lemma_nonempty_fields_keep(blank_fields_from(line, 0, d0, Seq::empty()));
    lemma_plain_words_clean(blank_words(line));
}

/// Whether the text holds only characters that stand for themselves anywhere in a word
/// of a command line: no blank, quote or backslash.
pub open spec fn word_chars(s: Seq<char>) -> bool {
    forall|k: int| 0 <= k < s.len() ==> !is_blank(#[trigger] s[k]) && s[k] != '"' && s[k] != '\'' && s[k] != '\\'
}

/// Reading `n` characters that each only join the current word (no quote, no backslash,
/// and outside quotes no blank) appends them to the current word.
proof fn lemma_split_run(s: Seq<char>, i: int, n: int, st: SplitState)
    requires
        0 <= i,
        0 <= n,
        i + n <= s.len(),
        forall|k: int| i <= k < i + n ==> #[trigger] s[k] != '"' && s[k] != '\\' && s[k] != '\'' && (!st.in_double
            && !st.in_single ==> !is_blank(s[k])),
    ensures
        split_from(s, i, st) == split_from(s, i + n, SplitState { current: st.current + s.subrange(i, i + n), ..st }),
    decreases n,
{
    if n == 0 {
        assert(st.current + s.subrange(i, i) =~= st.current);
    } else {
        let st2 = SplitState { current: st.current.push(s[i]), ..st };
        assert(s[i] != '"' && s[i] != '\\' && s[i] != '\'');
        assert(split_from(s, i, st) == split_from(s, i + 1, st2));
        lemma_split_run(s, i + 1, n - 1, st2);
        assert(st2.current + s.subrange(i + 1, i + n) =~= st.current + s.subrange(i, i + n));
    }
}

/// Splitting from a position depends only on the text from that position on.
proof fn lemma_split_same_rest(s1: Seq<char>, i1: int, s2: Seq<char>, i2: int)
    requires
        0 <= i1 <= s1.len(),
        0 <= i2 <= s2.len(),
        s1.skip(i1) == s2.skip(i2),
    ensures
        forall|st: SplitState| #[trigger] split_from(s1, i1, st) == split_from(s2, i2, st),
    decreases s1.len() - i1,
{
    assert(s1.skip(i1).len() == s1.len() - i1);
    assert(s2.skip(i2).len() == s2.len() - i2);
    if i1 < s1.len() {
        assert(s1[i1] == s1.skip(i1)[0]);
        assert(s2[i2] == s2.skip(i2)[0]);
        assert(s1.skip(i1 + 1) =~= s2.skip(i2 + 1)) by {
            assert forall|k: int| 0 <= k < s1.skip(i1 + 1).len() implies #[trigger] s1.skip(i1 + 1)[k] == s2.skip(i2 + 1)[k] by {
                assert(s1.skip(i1 + 1)[k] == s1.skip(i1)[k + 1]);
                assert(s2.skip(i2 + 1)[k] == s2.skip(i2)[k + 1]);
            }
        }
        lemma_split_same_rest(s1, i1 + 1, s2, i2 + 1);
        if i1 + 1 < s1.len() {
            assert(s1[i1 + 1] == s1.skip(i1)[1] && s2[i2 + 1] == s2.skip(i2)[1]);
            assert(s1.skip(i1 + 2) =~= s2.skip(i2 + 2)) by {
                assert forall|k: int| 0 <= k < s1.skip(i1 + 2).len() implies #[trigger] s1.skip(i1 + 2)[k] == s2.skip(i2 + 2)[k] by {
                    assert(s1.skip(i1 + 2)[k] == s1.skip(i1)[k + 2]);
                    assert(s2.skip(i2 + 2)[k] == s2.skip(i2)[k + 2]);
                }
            }
            lemma_split_same_rest(s1, i1 + 2, s2, i2 + 2);
        }
        assert forall|st: SplitState| #[trigger] split_from(s1, i1, st) == split_from(s2, i2, st) by {
            let c = s1[i1];
            assert(c == s2[i2]);
            if st.in_double {
                if c == '"' {
                    assert(split_from(s1, i1, st) == split_from(s1, i1 + 1, SplitState { in_double: false, ..st }));
                    assert(split_from(s2, i2, st) == split_from(s2, i2 + 1, SplitState { in_double: false, ..st }));
                } else if c == '\\' {
                    if i1 + 1 < s1.len() {
                        assert(s1[i1 + 1] == s2[i2 + 1]);
                        assert(i2 + 1 < s2.len());
                        let n = s1[i1 + 1];
                        let current = if n == '"' || n == '\\' || n == '$' {
                            st.current.push(n)
                        } else {
                            st.current.push('\\').push(n)
                        };
                        assert(split_from(s1, i1, st) == split_from(s1, i1 + 2, SplitState { current, ..st }));
                        assert(split_from(s2, i2, st) == split_from(s2, i2 + 2, SplitState { current, ..st }));
                    } else {
                        assert(!(i2 + 1 < s2.len()));
                        assert(split_from(s1, i1, st) == split_from(s1, i1 + 1, st));
                        assert(split_from(s2, i2, st) == split_from(s2, i2 + 1, st));
                    }
                } else {
                    assert(split_from(s1, i1, st) == split_from(s1, i1 + 1, SplitState { current: st.current.push(c), ..st }));
                    assert(split_from(s2, i2, st) == split_from(s2, i2 + 1, SplitState { current: st.current.push(c), ..st }));
                }
            } else if st.in_single {
                if c == '\'' {
                    assert(split_from(s1, i1, st) == split_from(s1, i1 + 1, SplitState { in_single: false, ..st }));
                    assert(split_from(s2, i2, st) == split_from(s2, i2 + 1, SplitState { in_single: false, ..st }));
                } else {
                    assert(split_from(s1, i1, st) == split_from(s1, i1 + 1, SplitState { current: st.current.push(c), ..st }));
                    assert(split_from(s2, i2, st) == split_from(s2, i2 + 1, SplitState { current: st.current.push(c), ..st }));
                }
            } else if c == '"' {
                assert(split_from(s1, i1, st) == split_from(s1, i1 + 1, SplitState { in_double: true, ..st }));
                assert(split_from(s2, i2, st) == split_from(s2, i2 + 1, SplitState { in_double: true, ..st }));
            } else if c == '\'' {
                assert(split_from(s1, i1, st) == split_from(s1, i1 + 1, SplitState { in_single: true, ..st }));
                assert(split_from(s2, i2, st) == split_from(s2, i2 + 1, SplitState { in_single: true, ..st }));
            } else if c == ' ' || c == '\t' {
                if st.current.len() > 0 {
                    let st2 = SplitState { words: st.words.push(st.current), current: Seq::empty(), ..st };
                    assert(split_from(s1, i1, st) == split_from(s1, i1 + 1, st2));
                    assert(split_from(s2, i2, st) == split_from(s2, i2 + 1, st2));
                } else {
                    assert(split_from(s1, i1, st) == split_from(s1, i1 + 1, st));
                    assert(split_from(s2, i2, st) == split_from(s2, i2 + 1, st));
                }
            } else {
                assert(split_from(s1, i1, st) == split_from(s1, i1 + 1, SplitState { current: st.current.push(c), ..st }));
                assert(split_from(s2, i2, st) == split_from(s2, i2 + 1, SplitState { current: st.current.push(c), ..st }));
            }
        }
    } else {
        assert forall|st: SplitState| #[trigger] split_from(s1, i1, st) == split_from(s2, i2, st) by {}
    }
}

/// A double quote outside quotes does not end a word: it only groups what follows it up
/// to the closing quote with the word being read. So a line in which a quoted part
/// directly follows other characters of a word splits into the same words, and gives
/// the same arguments, as the line with that pair of quotes taken out.
pub proof fn law_quotes_group_within_a_word(a: Seq<char>, b: Seq<char>, rest: Seq<char>)
    requires
        word_chars(a),
        word_chars(b),
    ensures
        split_words(a + seq!['"'] + b + seq!['"'] + rest) == split_words(a + b + rest),
        exec_arguments(a + seq!['"'] + b + seq!['"'] + rest) == exec_arguments(a + b + rest),
{
    let l = a + seq!['"'] + b + seq!['"'] + rest;
    let m = a + b + rest;
    let na = a.len() as int;
    let nb = b.len() as int;
    let st0 = split_start();
    assert forall|k: int| 0 <= k < na implies #[trigger] l[k] == a[k] && m[k] == a[k] by {}
    assert forall|k: int| 0 <= k < nb implies #[trigger] l[na + 1 + k] == b[k] && m[na + k] == b[k] by {}
    assert(l[na] == '"');
    assert(l[na + 1 + nb] == '"');
    // the line with quotes: the first part, the opening quote, the quoted part, the closing quote
    assert forall|k: int| 0 <= k < na implies #[trigger] l[k] != '"' && l[k] != '\\' && !is_blank(l[k]) && l[k] != '\'' by {
        assert(l[k] == a[k]);
    }
    lemma_split_run(l, 0, na, st0);
    assert(st0.current + l.subrange(0, na) =~= a);
    let st1 = SplitState { current: a, ..st0 };
    let st2 = SplitState { in_double: true, ..st1 };
    assert(split_from(l, na, st1) == split_from(l, na + 1, st2));
    assert forall|k: int| na + 1 <= k < na + 1 + nb implies #[trigger] l[k] != '"' && l[k] != '\\' && l[k] != '\'' by {
        assert(l[k] == b[k - na - 1]);
    }
    lemma_split_run(l, na + 1, nb, st2);
    assert(a + l.subrange(na + 1, na + 1 + nb) =~= a + b);
    let st3 = SplitState { current: a + b, ..st2 };
    let st4 = SplitState { current: a + b, ..st0 };
    assert(split_from(l, na + 1 + nb, st3) == split_from(l, na + nb + 2, st4));
    // the line without them
    assert forall|k: int| 0 <= k < na + nb implies #[trigger] m[k] != '"' && m[k] != '\\' && !is_blank(m[k]) && m[k] != '\'' by {
        if k < na {
            assert(m[k] == a[k]);
        } else {
            assert(m[k] == b[k - na]);
        }
    }
    lemma_split_run(m, 0, na + nb, st0);
    assert(st0.current + m.subrange(0, na + nb) =~= a + b);
    assert(l.skip(na + nb + 2) =~= rest);
    assert(m.skip(na + nb) =~= rest);
    lemma_split_same_rest(l, na + nb + 2, m, na + nb);
    assert(split_from(l, 0, st0) == split_from(m, 0, st0));
}

/// The same holds of single quotes: a single quote outside quotes does not end a word,
/// and a line in which a part in single quotes directly follows other characters of a
/// word splits into the same words, and gives the same arguments, as the line with that
/// pair of quotes taken out.
pub proof fn law_single_quotes_group_within_a_word(a: Seq<char>, b: Seq<char>, rest: Seq<char>)
    requires
        word_chars(a),
        word_chars(b),
    ensures
        split_words(a + seq!['\''] + b + seq!['\''] + rest) == split_words(a + b + rest),
        exec_arguments(a + seq!['\''] + b + seq!['\''] + rest) == exec_arguments(a + b + rest),
{
    let l = a + seq!['\''] + b + seq!['\''] + rest;
    let m = a + b + rest;
    let na = a.len() as int;
    let nb = b.len() as int;
    let st0 = split_start();
    assert forall|k: int| 0 <= k < na implies #[trigger] l[k] == a[k] && m[k] == a[k] by {}
    assert forall|k: int| 0 <= k < nb implies #[trigger] l[na + 1 + k] == b[k] && m[na + k] == b[k] by {}
    assert(l[na] == '\'');
    assert(l[na + 1 + nb] == '\'');
    assert forall|k: int| 0 <= k < na implies #[trigger] l[k] != '"' && l[k] != '\\' && !is_blank(l[k]) && l[k] != '\'' by {
        assert(l[k] == a[k]);
    }
    lemma_split_run(l, 0, na, st0);
    assert(st0.current + l.subrange(0, na) =~= a);
    let st1 = SplitState { current: a, ..st0 };
    let st2 = SplitState { in_single: true, ..st1 };
    assert(split_from(l, na, st1) == split_from(l, na + 1, st2));
    assert forall|k: int| na + 1 <= k < na + 1 + nb implies #[trigger] l[k] != '"' && l[k] != '\\' && l[k] != '\'' by {
        assert(l[k] == b[k - na - 1]);
    }
    lemma_split_run(l, na + 1, nb, st2);
    assert(a + l.subrange(na + 1, na + 1 + nb) =~= a + b);
    let st3 = SplitState { current: a + b, ..st2 };
    let st4 = SplitState { current: a + b, ..st0 };
    assert(split_from(l, na + 1 + nb, st3) == split_from(l, na + nb + 2, st4));
    assert forall|k: int| 0 <= k < na + nb implies #[trigger] m[k] != '"' && m[k] != '\\' && !is_blank(m[k]) && m[k] != '\'' by {
        if k < na {
            assert(m[k] == a[k]);
        } else {
            assert(m[k] == b[k - na]);
        }
    }
    lemma_split_run(m, 0, na + nb, st0);
    assert(st0.current + m.subrange(0, na + nb) =~= a + b);
    assert(l.skip(na + nb + 2) =~= rest);
    assert(m.skip(na + nb) =~= rest);
    lemma_split_same_rest(l, na + nb + 2, m, na + nb);
    assert(split_from(l, 0, st0) == split_from(m, 0, st0));
}

} // verus!
