//! Saved launch sessions and their stored JSON-style text form.
use vstd::prelude::*;

use crate::text::{
    all_white_space, avoids, chars_of, extract_field, extract_string_field, field_key, find,
    find_char, find_chars, is_key_at, is_white_space, join, lemma_escape_quote_free,
    lemma_extract_null, lemma_extract_quoted, lemma_find_char, lemma_find_from, lemma_find_from_at,
    lemma_find_from_none, lemma_find_key, lemma_find_shift, lemma_find_skip_start,
    lemma_join_append, lemma_join_avoids, lemma_join_push, lemma_join_unfold, lemma_not_key,
    lemma_optional_avoids, lemma_optional_pieces, lemma_quoted_avoids, lemma_skip_unfold,
    lemma_split_avoiding, lemma_split_head, lemma_trim_char_quoted, lemma_trim_end_stops,
    lemma_trim_start_prefix, occurs_at, optional_json, optional_pieces, push_all,
    push_optional_json, push_quoted, push_str, quote_free, quoted, split_char, split_char_chars,
    starts_with, string_of, sub_chars, trim, trim_char, trim_char_chars, trim_chars, trim_start,
    trim_start_chars,
};
use crate::KittyAdapterError;

verus! {

/// A named launch profile: where kitty starts, which shell and title it
/// gets, and the further arguments it is given.
#[derive(Debug, Clone, PartialEq, Eq)]
pub struct SessionTemplate {
    pub name: String,
    pub directory: String,
    pub shell: Option<String>,
    pub title: Option<String>,
    pub extra_args: Vec<String>,
}

/// The mathematical content of a [`SessionTemplate`].
pub struct SessionView {
    pub name: Seq<char>,
    pub directory: Seq<char>,
    pub shell: Option<Seq<char>>,
    pub title: Option<Seq<char>>,
    pub extra_args: Seq<Seq<char>>,
}

impl View for SessionTemplate {
    type V = SessionView;

    open spec fn view(&self) -> SessionView {
        SessionView {
            name: self.name@,
            directory: self.directory@,
            shell: self.shell.deep_view(),
            title: self.title.deep_view(),
            extra_args: self.extra_args.deep_view(),
        }
    }
}

/// The contents of a list of sessions.
pub open spec fn sessions_view(v: Seq<SessionTemplate>) -> Seq<SessionView> {
    v.map_values(|s: SessionTemplate| s@)
}

impl SessionTemplate {
    /// A session that starts in the current directory with nothing else set.
    pub fn new(name: String) -> (s: Self)
        ensures
            s@ == (SessionView {
                name: name@,
                directory: "."@,
                shell: None,
                title: None,
                extra_args: Seq::empty(),
            }),
    {
        let extra_args: Vec<String> = Vec::new();
        assert(extra_args.deep_view() =~= Seq::<Seq<char>>::empty());
        SessionTemplate {
            name,
            directory: String::from_str("."),
            shell: None,
            title: None,
            extra_args,
        }
    }
}

// ---------------------------------------------------------------------------
// The stored text
// ---------------------------------------------------------------------------

/// The cleaned arguments of a stored argument list: each comma-separated
/// piece trimmed, empty pieces dropped, and surrounding quotes removed.
pub open spec fn clean_args(parts: Seq<Seq<char>>) -> Seq<Seq<char>>
    decreases parts.len(),
{
    if parts.len() == 0 {
        Seq::empty()
    } else {
        let p = trim(parts[0]);
        let rest = clean_args(parts.drop_first());
        if p.len() > 0 {
            seq![trim_char(p, '"')] + rest
        } else {
            rest
        }
    }
}

/// The arguments stored after the first `"extra_args":` key: what stands
/// between the `[` that follows it and the first `]` after that, split at
/// commas and cleaned; none where the key, the `[` or the `]` is missing.
pub open spec fn extract_args(input: Seq<char>) -> Seq<Seq<char>> {
    let key = field_key("extra_args"@);
    match find(input, key) {
        None => Seq::empty(),
        Some(start) => {
            let rest = trim_start(input.skip(start + key.len()));
            if !starts_with(rest, seq!['[']) {
                Seq::empty()
            } else {
                match find(rest, seq![']']) {
                    None => Seq::empty(),
                    Some(end) => clean_args(split_char(rest.subrange(1, end), ',')),
                }
            }
        }
    }
}

/// The session stored in the text of one object, if it names one; a
/// missing directory falls back to `.`.
pub open spec fn parse_object(input: Seq<char>) -> Option<SessionView> {
    match extract_field(input, "name"@) {
        None => None,
        Some(name) => Some(
            SessionView {
                name,
                directory: match extract_field(input, "directory"@) {
                    Some(d) => d,
                    None => "."@,
                },
                shell: extract_field(input, "shell"@),
                title: extract_field(input, "title"@),
                extra_args: extract_args(input),
            },
        ),
    }
}

/// The sessions of a stored text: the text between each `{` and the next
/// `}` after it, read as an object, in order; objects without a name are
/// skipped, and reading stops at a `{` with no `}` after it.
pub open spec fn parse_sessions(input: Seq<char>) -> Seq<SessionView>
    decreases input.len(),
{
    match find(input, seq!['{']) {
        None => Seq::empty(),
        Some(start) => {
            let after = input.skip(start + 1);
            match find(after, seq!['}']) {
                None => Seq::empty(),
                Some(end) => {
                    proof {
                        lemma_find_from(input, seq!['{'], 0);
                        lemma_find_from(after, seq!['}'], 0);
                    }
                    let head = match parse_object(after.take(end)) {
                        Some(s) => seq![s],
                        None => Seq::empty(),
                    };
                    head + parse_sessions(after.skip(end + 1))
                },
            }
        },
    }
}

/// The stored text of an argument list: `[`, the quoted arguments separated
/// by `, `, and `]`.
pub open spec fn format_args(args: Seq<Seq<char>>) -> Seq<char> {
    seq!['['] + join(args.map_values(|a: Seq<char>| quoted(a)), ", "@) + seq![']']
}

/// The stored text of one session.
pub open spec fn format_session(s: SessionView) -> Seq<char> {
    "  {\n    \"name\": "@ + quoted(s.name) + ",\n    \"directory\": "@ + quoted(s.directory)
        + ",\n    \"shell\": "@ + optional_json(s.shell) + ",\n    \"title\": "@ + optional_json(
        s.title,
    ) + ",\n    \"extra_args\": "@ + format_args(s.extra_args) + "\n  }"@
}

/// The stored text of a list of sessions.
pub open spec fn format_sessions(ss: Seq<SessionView>) -> Seq<char> {
    "[\n"@ + join(ss.map_values(|s: SessionView| format_session(s)), ",\n"@) + "\n]"@
}

/// The text that saving a list of sessions writes.
pub open spec fn stored_sessions(ss: Seq<SessionView>) -> Seq<char> {
    format_sessions(ss).push('\n')
}

fn extract_extra_args(input: &str) -> (r: Vec<String>)
    ensures
        r.deep_view() == extract_args(input@),
{
    let text = chars_of(input);
    let key = chars_of("\"extra_args\":");
    proof {
        reveal_strlit("\"extra_args\":");
        reveal_strlit("extra_args");
        assert(key@ =~= field_key("extra_args"@));
    }
    let start = match find_chars(&text, &key) {
        None => {
            let r: Vec<String> = Vec::new();
            assert(r.deep_view() =~= Seq::<Seq<char>>::empty());
            return r;
        },
        Some(start) => start,
    };
    proof {
        lemma_find_from(text@, key@, 0);
        assert(start + key@.len() <= text@.len());
    }
    assert(start + key.len() <= text.len());
    let after = sub_chars(&text, start + key.len(), text.len());
    assert(after@ =~= input@.skip(start + key@.len()));
    let rest = trim_start_chars(&after);
    if rest.len() == 0 || rest[0] != '[' {
        assert(!starts_with(rest@, seq!['['])) by {
            if rest@.len() > 0 {
                assert(rest@.take(1)[0] == rest@[0]);
            }
        }
        let r: Vec<String> = Vec::new();
        assert(r.deep_view() =~= Seq::<Seq<char>>::empty());
        return r;
    }
    assert(rest@.take(1) =~= seq!['[']);
    let end = match find_char(&rest, ']') {
        None => {
            let r: Vec<String> = Vec::new();
            assert(r.deep_view() =~= Seq::<Seq<char>>::empty());
            return r;
        },
        Some(end) => end,
    };
    proof {
        lemma_find_from(rest@, seq![']'], 0);
        assert(rest@.subrange(end as int, end + 1)[0] == rest@[end as int]);
    }
    let inner = sub_chars(&rest, 1, end);
    let parts = split_char_chars(&inner, ',');
    let mut r: Vec<String> = Vec::new();
    let mut i: usize = 0;
    assert(parts.deep_view().skip(0) =~= parts.deep_view());
    assert(r.deep_view() + clean_args(parts.deep_view()) =~= clean_args(parts.deep_view()));
    while i < parts.len()
        invariant
            i <= parts.len(),
            clean_args(parts.deep_view()) == r.deep_view() + clean_args(
                parts.deep_view().skip(i as int),
            ),
        decreases parts.len() - i,
    {
        let ghost dv = parts.deep_view();
        assert(dv.skip(i as int).drop_first() =~= dv.skip(i + 1));
        assert(dv.skip(i as int)[0] == parts[i as int]@);
        let p = trim_chars(&parts[i]);
        if p.len() > 0 {
            let cleaned = trim_char_chars(&p, '"');
            let ghost old_r = r.deep_view();
            r.push(string_of(&cleaned));
            assert(r.deep_view() =~= old_r.push(cleaned@));
            assert(r.deep_view() + clean_args(dv.skip(i + 1)) =~= old_r + (seq![cleaned@]
                + clean_args(dv.skip(i + 1))));
        }
        i = i + 1;
    }
    assert(parts.deep_view().skip(parts.len() as int) =~= Seq::<Seq<char>>::empty());
    assert(r.deep_view() + Seq::<Seq<char>>::empty() =~= r.deep_view());
    assert(parts.deep_view().skip(0) =~= parts.deep_view());
    r
}

fn parse_session_object(input: &str) -> (r: Option<SessionTemplate>)
    ensures
        match r {
            Some(s) => parse_object(input@) == Some(s@),
            None => parse_object(input@) is None,
        },
{
    let name = match extract_string_field(input, "name") {
        Some(n) => n,
        None => {
            return None;
        },
    };
    let directory = match extract_string_field(input, "directory") {
        Some(d) => d,
        None => String::from_str("."),
    };
    let shell = extract_string_field(input, "shell");
    let title = extract_string_field(input, "title");
    let extra_args = extract_extra_args(input);
    Some(SessionTemplate { name, directory, shell, title, extra_args })
}

fn parse_sessions_json(input: &str) -> (r: Result<Vec<SessionTemplate>, KittyAdapterError>)
    ensures
        r matches Ok(v) && sessions_view(v@) == parse_sessions(input@),
{
    let mut sessions: Vec<SessionTemplate> = Vec::new();
    let mut rest = chars_of(input);
    loop
        invariant
            parse_sessions(input@) == sessions_view(sessions@) + parse_sessions(rest@),
        ensures
            parse_sessions(input@) == sessions_view(sessions@),
        decreases rest@.len(),
    {
        let start = match find_char(&rest, '{') {
            None => {
                assert(sessions_view(sessions@) + parse_sessions(rest@) =~= sessions_view(
                    sessions@,
                ));
                break;
            },
            Some(start) => start,
        };
        proof {
            lemma_find_from(rest@, seq!['{'], 0);
            assert(rest@.subrange(start as int, start + 1)[0] == rest@[start as int]);
        }
        let after = sub_chars(&rest, start + 1, rest.len());
        assert(after@ =~= rest@.skip(start + 1));
        let end = match find_char(&after, '}') {
            None => {
                assert(sessions_view(sessions@) + parse_sessions(rest@) =~= sessions_view(
                    sessions@,
                ));
                break;
            },
            Some(end) => end,
        };
        proof {
            lemma_find_from(after@, seq!['}'], 0);
            assert(after@.subrange(end as int, end + 1)[0] == after@[end as int]);
        }
        let object = sub_chars(&after, 0, end);
        assert(object@ =~= after@.take(end as int));
        let object_text = string_of(&object);
        let ghost old_sessions = sessions@;
        match parse_session_object(object_text.as_str()) {
            Some(s) => {
                sessions.push(s);
                assert(sessions_view(sessions@) =~= sessions_view(old_sessions) + seq![s@]);
            },
            None => {
                assert(sessions@ == old_sessions);
            },
        }
        let next = sub_chars(&after, end + 1, after.len());
        assert(next@ =~= after@.skip(end + 1));
        assert(sessions_view(sessions@) + parse_sessions(next@) =~= sessions_view(old_sessions)
            + parse_sessions(rest@));
        rest = next;
    }
    Ok(sessions)
}

fn format_extra_args(extra_args: &Vec<String>) -> (s: String)
    ensures
        s@ == format_args(extra_args.deep_view()),
{
    let mut out: Vec<char> = Vec::new();
    out.push('[');
    let ghost q = extra_args.deep_view().map_values(|a: Seq<char>| quoted(a));
    let mut body: Vec<char> = Vec::new();
    let mut i: usize = 0;
    assert(q.take(0) =~= Seq::<Seq<char>>::empty());
    while i < extra_args.len()
        invariant
            i <= extra_args.len(),
            q == extra_args.deep_view().map_values(|a: Seq<char>| quoted(a)),
            body@ == join(q.take(i as int), ", "@),
        decreases extra_args.len() - i,
    {
        proof {
            lemma_join_push(q.take(i as int), ", "@, q[i as int]);
            assert(q.take(i as int).push(q[i as int]) =~= q.take(i + 1));
        }
        if i > 0 {
            push_str(&mut body, ", ");
        }
        push_quoted(&mut body, extra_args[i].as_str());
        assert(body@ =~= join(q.take(i + 1), ", "@));
        i = i + 1;
    }
    assert(q.take(extra_args.len() as int) =~= q);
    push_all(&mut out, &body);
    out.push(']');
    assert(out@ =~= format_args(extra_args.deep_view()));
    string_of(&out)
}

fn push_session(session: &SessionTemplate, out: &mut Vec<char>)
    ensures
        final(out)@ == old(out)@ + format_session(session@),
{
    let ghost start = out@;
    push_str(out, "  {\n    \"name\": ");
    push_quoted(out, session.name.as_str());
    push_str(out, ",\n    \"directory\": ");
    push_quoted(out, session.directory.as_str());
    push_str(out, ",\n    \"shell\": ");
    push_optional_json(out, &session.shell);
    push_str(out, ",\n    \"title\": ");
    push_optional_json(out, &session.title);
    push_str(out, ",\n    \"extra_args\": ");
    let args = format_extra_args(&session.extra_args);
    push_str(out, args.as_str());
    push_str(out, "\n  }");
    assert(out@ =~= start + format_session(session@));
}

fn format_sessions_json(sessions: &Vec<SessionTemplate>) -> (s: String)
    ensures
        s@ == format_sessions(sessions_view(sessions@)),
{
    let ghost f = sessions_view(sessions@).map_values(|s: SessionView| format_session(s));
    let mut body: Vec<char> = Vec::new();
    let mut i: usize = 0;
    assert(f.take(0) =~= Seq::<Seq<char>>::empty());
    while i < sessions.len()
        invariant
            i <= sessions.len(),
            f == sessions_view(sessions@).map_values(|s: SessionView| format_session(s)),
            body@ == join(f.take(i as int), ",\n"@),
        decreases sessions.len() - i,
    {
        proof {
            lemma_join_push(f.take(i as int), ",\n"@, f[i as int]);
            assert(f.take(i as int).push(f[i as int]) =~= f.take(i + 1));
        }
        if i > 0 {
            push_str(&mut body, ",\n");
        }
        push_session(&sessions[i], &mut body);
        assert(body@ =~= join(f.take(i + 1), ",\n"@));
        i = i + 1;
    }
    assert(f.take(sessions.len() as int) =~= f);
    let mut out: Vec<char> = Vec::new();
    push_str(&mut out, "[\n");
    push_all(&mut out, &body);
    push_str(&mut out, "\n]");
    string_of(&out)
}

/// The sessions rendered as the stored JSON-style text.
pub fn render_sessions_json(sessions: &Vec<SessionTemplate>) -> (s: String)
    ensures
        s@ == format_sessions(sessions_view(sessions@)),
{
    format_sessions_json(sessions)
}

// ---------------------------------------------------------------------------
// The list of sessions
// ---------------------------------------------------------------------------

/// The index of the first session called `name`.
pub open spec fn first_named(ss: Seq<SessionView>, name: Seq<char>) -> Option<int>
    decreases ss.len(),
{
    if ss.len() == 0 {
        None
    } else if ss[0].name == name {
        Some(0)
    } else {
        match first_named(ss.drop_first(), name) {
            Some(i) => Some(i + 1),
            None => None,
        }
    }
}

/// The first session called `name`, if any.
pub open spec fn lookup(ss: Seq<SessionView>, name: Seq<char>) -> Option<SessionView> {
    match first_named(ss, name) {
        Some(i) => Some(ss[i]),
        None => None,
    }
}

/// The list with `t` in place of the first session of the same name, or
/// with `t` appended where there is none.
pub open spec fn upsert(ss: Seq<SessionView>, t: SessionView) -> Seq<SessionView> {
    match first_named(ss, t.name) {
        Some(i) => ss.update(i, t),
        None => ss.push(t),
    }
}

/// `first_named` is the first index whose session has the name.
pub proof fn lemma_first_named(ss: Seq<SessionView>, name: Seq<char>)
    ensures
        first_named(ss, name) matches Some(i) ==> 0 <= i < ss.len() && ss[i].name == name
            && forall|j: int| 0 <= j < i ==> ss[j].name != name,
        first_named(ss, name) is None ==> forall|j: int| 0 <= j < ss.len() ==> ss[j].name != name,
    decreases ss.len(),
{
    if ss.len() > 0 && ss[0].name != name {
        lemma_first_named(ss.drop_first(), name);
        assert forall|j: int| 1 <= j < ss.len() implies ss[j].name == ss.drop_first()[j - 1].name by {}
    }
}

/// An index whose session has the name, with none before it, is what
/// `first_named` gives; with no such index it gives none.
pub proof fn lemma_first_named_is(ss: Seq<SessionView>, name: Seq<char>, i: int)
    requires
        0 <= i <= ss.len(),
        forall|j: int| 0 <= j < i ==> ss[j].name != name,
        i < ss.len() ==> ss[i].name == name,
    ensures
        i < ss.len() ==> first_named(ss, name) == Some(i),
        i == ss.len() ==> first_named(ss, name) is None,
    decreases i,
{
    if i > 0 {
        lemma_first_named_is(ss.drop_first(), name, i - 1);
    }
}

/// After `upsert(ss, t)`, looking up the name of `t` gives `t`.
pub proof fn lemma_upsert_lookup(ss: Seq<SessionView>, t: SessionView)
    ensures
        lookup(upsert(ss, t), t.name) == Some(t),
{
    lemma_first_named(ss, t.name);
    let u = upsert(ss, t);
    match first_named(ss, t.name) {
        Some(i) => {
            assert forall|j: int| 0 <= j < i implies u[j].name != t.name by {}
            lemma_first_named_is(u, t.name, i);
        },
        None => {
            assert forall|j: int| 0 <= j < ss.len() implies u[j].name != t.name by {}
            lemma_first_named_is(u, t.name, ss.len() as int);
        },
    }
}

/// `upsert` leaves every session of another name where it was, and the list
/// grows by one exactly when no session had the name of `t`.
pub proof fn lemma_upsert_keeps_others(ss: Seq<SessionView>, t: SessionView)
    ensures
        upsert(ss, t).len() == ss.len() + (if lookup(ss, t.name) is Some { 0int } else { 1int }),
        forall|j: int| 0 <= j < ss.len() && ss[j].name != t.name ==> upsert(ss, t)[j] == ss[j],
{
    lemma_first_named(ss, t.name);
}

/// The first session called `name` in `v`.
fn position_of(v: &Vec<SessionTemplate>, name: &String) -> (r: Option<usize>)
    ensures
        match r {
            Some(i) => first_named(sessions_view(v@), name@) == Some(i as int),
            None => first_named(sessions_view(v@), name@) is None,
        },
{
    let ghost ss = sessions_view(v@);
    let mut i: usize = 0;
    while i < v.len()
        invariant
            i <= v.len(),
            ss == sessions_view(v@),
            forall|j: int| 0 <= j < i ==> ss[j].name != name@,
        decreases v.len() - i,
    {
        if v[i].name == *name {
            proof {
                lemma_first_named_is(ss, name@, i as int);
            }
            return Some(i);
        }
        i = i + 1;
    }
    proof {
        lemma_first_named_is(ss, name@, i as int);
    }
    None
}

/// Puts `template` in place of the first session of the same name, or
/// appends it.
fn upsert_into(sessions: &mut Vec<SessionTemplate>, template: SessionTemplate)
    ensures
        sessions_view(final(sessions)@) == upsert(sessions_view(old(sessions)@), template@),
{
    match position_of(sessions, &template.name) {
        Some(i) => {
            let ghost t = template@;
            proof {
                lemma_first_named(sessions_view(sessions@), t.name);
            }
            sessions.set(i, template);
            assert(sessions_view(sessions@) =~= sessions_view(old(sessions)@).update(i as int, t));
        },
        None => {
            let ghost t = template@;
            sessions.push(template);
            assert(sessions_view(sessions@) =~= sessions_view(old(sessions)@).push(t));
        },
    }
}

/// Where the saved sessions are stored.
#[derive(Debug, Clone)]
pub struct SessionService {
    session_store_path: String,
}

impl SessionService {
    pub closed spec fn spec_store_path(&self) -> Seq<char> {
        self.session_store_path@
    }

    pub fn new(session_store_path: String) -> (s: Self)
        ensures
            s.spec_store_path() == session_store_path@,
    {
        SessionService { session_store_path }
    }

    pub fn store_path(&self) -> (p: &String)
        ensures
            p@ == self.spec_store_path(),
    {
        &self.session_store_path
    }

    /// The saved sessions given what the store holds: `None` when the file
    /// does not exist (no sessions), else its text, parsed.
    pub fn list_sessions(&self, stored: Option<&str>) -> (r: Result<
        Vec<SessionTemplate>,
        KittyAdapterError,
    >)
        ensures
            r matches Ok(v) && sessions_view(v@) == stored_list(stored),
    {
        match stored {
            None => {
                let v: Vec<SessionTemplate> = Vec::new();
                assert(sessions_view(v@) =~= Seq::<SessionView>::empty());
                Ok(v)
            },
            Some(t) => parse_sessions_json(t),
        }
    }

    /// The text to store after saving `template`: the stored sessions with
    /// `template` in place of the first session of its name, or appended.
    pub fn upsert_session(&self, stored: Option<&str>, template: SessionTemplate) -> (r: Result<
        String,
        KittyAdapterError,
    >)
        ensures
            r matches Ok(t) && t@ == stored_sessions(upsert(stored_list(stored), template@)),
    {
        let mut sessions = self.list_sessions(stored)?;
        upsert_into(&mut sessions, template);
        Ok(self.save(&sessions))
    }

    /// The first stored session called `name`, if any.
    pub fn get_session(&self, stored: Option<&str>, name: &str) -> (r: Result<
        Option<SessionTemplate>,
        KittyAdapterError,
    >)
        ensures
            r matches Ok(found) && match found {
                Some(s) => lookup(stored_list(stored), name@) == Some(s@),
                None => lookup(stored_list(stored), name@) is None,
            },
    {
        let mut sessions = self.list_sessions(stored)?;
        let key = String::from_str(name);
        match position_of(&sessions, &key) {
            Some(i) => {
                let ghost ss = sessions_view(sessions@);
                proof {
                    lemma_first_named(ss, key@);
                }
                let s = sessions.remove(i);
                assert(s@ == ss[i as int]);
                Ok(Some(s))
            },
            None => Ok(None),
        }
    }

    /// The text that saving `sessions` writes to the store.
    fn save(&self, sessions: &Vec<SessionTemplate>) -> (payload: String)
        ensures
            payload@ == stored_sessions(sessions_view(sessions@)),
    {
        let mut out = chars_of(format_sessions_json(sessions).as_str());
        out.push('\n');
        string_of(&out)
    }
}

/// The sessions held by a store: none when nothing is stored, else those of
/// its text.
pub open spec fn stored_list(stored: Option<&str>) -> Seq<SessionView> {
    match stored {
        Some(t) => parse_sessions(t@),
        None => Seq::empty(),
    }
}

// ---------------------------------------------------------------------------
// Reading back what was stored
// ---------------------------------------------------------------------------

/// A string that the session store keeps apart: it holds no `"` and no `}`.
pub open spec fn storable_text(s: Seq<char>) -> bool {
    quote_free(s) && avoids(s, '}')
}

/// An argument that a stored argument list keeps apart: it holds no `"`, `,`
/// or `]`.
pub open spec fn listable_arg(a: Seq<char>) -> bool {
    quote_free(a) && avoids(a, ',') && avoids(a, ']')
}

/// An argument that the session store keeps apart: one that an argument
/// list keeps apart, without `}`.
pub open spec fn storable_arg(a: Seq<char>) -> bool {
    listable_arg(a) && avoids(a, '}')
}

/// A session whose strings the store keeps apart, so that reading back what
/// was saved gives them unchanged.
pub open spec fn storable_session(s: SessionView) -> bool {
    &&& storable_text(s.name)
    &&& storable_text(s.directory)
    &&& (s.shell matches Some(v) ==> storable_text(v))
    &&& (s.title matches Some(v) ==> storable_text(v))
    &&& forall|i: int| 0 <= i < s.extra_args.len() ==> storable_arg(#[trigger] s.extra_args[i])
}

/// The text of a stored session between its braces.
pub open spec fn session_body(s: SessionView) -> Seq<char> {
    "\n    \"name\": "@ + quoted(s.name) + ",\n    \"directory\": "@ + quoted(s.directory)
        + ",\n    \"shell\": "@ + optional_json(s.shell) + ",\n    \"title\": "@ + optional_json(
        s.title,
    ) + ",\n    \"extra_args\": "@ + format_args(s.extra_args) + "\n  "@
}

/// The body of a stored session cut at its quotes, up to the argument list,
/// which stays whole in the last piece.
pub open spec fn session_pieces(s: SessionView) -> Seq<Seq<char>> {
    seq!["\n    "@, "name"@, ": "@, s.name, ",\n    "@, "directory"@, ": "@, s.directory, ",\n    "@, "shell"@]
        + optional_pieces(s.shell, ",\n    "@) + seq!["title"@] + optional_pieces(
        s.title,
        ",\n    "@,
    ) + seq!["extra_args"@, ": "@ + format_args(s.extra_args) + "\n  "@]
}

proof fn lemma_session_head1(n: Seq<char>)
    ensures
        join(seq!["\n    "@, "name"@, ": "@, n, ",\n    "@], seq!['"']) == "\n    "@ + seq!['"'] + "name"@ + seq!['"'] + ": "@ + seq!['"'] + n + seq!['"'] + ",\n    "@,
{
    let q = seq!['"'];
    assert(seq!["\n    "@, "name"@, ": "@, n, ",\n    "@].drop_first() =~= seq!["name"@, ": "@, n, ",\n    "@]);
    lemma_join_unfold(seq!["\n    "@, "name"@, ": "@, n, ",\n    "@], q);
    assert(seq!["name"@, ": "@, n, ",\n    "@].drop_first() =~= seq![": "@, n, ",\n    "@]);
    lemma_join_unfold(seq!["name"@, ": "@, n, ",\n    "@], q);
    assert(seq![": "@, n, ",\n    "@].drop_first() =~= seq![n, ",\n    "@]);
    lemma_join_unfold(seq![": "@, n, ",\n    "@], q);
    assert(seq![n, ",\n    "@].drop_first() =~= seq![",\n    "@]);
    lemma_join_unfold(seq![n, ",\n    "@], q);
    assert(join(seq![",\n    "@], q) == ",\n    "@);
    assert(join(seq!["\n    "@, "name"@, ": "@, n, ",\n    "@], q) == "\n    "@ + q + ("name"@ + q + (": "@ + q + (n + q + (",\n    "@)))));
    assert(join(seq!["\n    "@, "name"@, ": "@, n, ",\n    "@], q) =~= "\n    "@ + q + "name"@ + q + ": "@ + q + n + q + ",\n    "@);
}

proof fn lemma_session_head2(d: Seq<char>)
    ensures
        join(seq!["directory"@, ": "@, d, ",\n    "@, "shell"@], seq!['"']) == "directory"@ + seq!['"'] + ": "@ + seq!['"'] + d + seq!['"'] + ",\n    "@ + seq!['"'] + "shell"@,
{
    let q = seq!['"'];
    assert(seq!["directory"@, ": "@, d, ",\n    "@, "shell"@].drop_first() =~= seq![": "@, d, ",\n    "@, "shell"@]);
    lemma_join_unfold(seq!["directory"@, ": "@, d, ",\n    "@, "shell"@], q);
    assert(seq![": "@, d, ",\n    "@, "shell"@].drop_first() =~= seq![d, ",\n    "@, "shell"@]);
    lemma_join_unfold(seq![": "@, d, ",\n    "@, "shell"@], q);
    assert(seq![d, ",\n    "@, "shell"@].drop_first() =~= seq![",\n    "@, "shell"@]);
    lemma_join_unfold(seq![d, ",\n    "@, "shell"@], q);
    assert(seq![",\n    "@, "shell"@].drop_first() =~= seq!["shell"@]);
    lemma_join_unfold(seq![",\n    "@, "shell"@], q);
    assert(join(seq!["shell"@], q) == "shell"@);
    assert(join(seq!["directory"@, ": "@, d, ",\n    "@, "shell"@], q) == "directory"@ + q + (": "@ + q + (d + q + (",\n    "@ + q + ("shell"@)))));
    assert(join(seq!["directory"@, ": "@, d, ",\n    "@, "shell"@], q) =~= "directory"@ + q + ": "@ + q + d + q + ",\n    "@ + q + "shell"@);
}

proof fn lemma_session_head_literals()
    ensures
        "\n    "@ + seq!['"'] + "name"@ + seq!['"'] + ": "@ == "\n    \"name\": "@,
        ",\n    "@ + seq!['"'] + "directory"@ + seq!['"'] + ": "@ == ",\n    \"directory\": "@,
        ",\n    "@ + seq!['"'] + "shell"@ == ",\n    \"shell"@,
{
    reveal_strlit("\n    \"name\": ");
    reveal_strlit(",\n    \"directory\": ");
    reveal_strlit(",\n    \"shell");
    reveal_strlit("\n    ");
    reveal_strlit("name");
    reveal_strlit(": ");
    reveal_strlit(",\n    ");
    reveal_strlit("directory");
    reveal_strlit("shell");
    assert("\n    "@ + seq!['"'] + "name"@ + seq!['"'] + ": "@ =~= "\n    \"name\": "@);
    assert(",\n    "@ + seq!['"'] + "directory"@ + seq!['"'] + ": "@ =~= ",\n    \"directory\": "@);
    assert(",\n    "@ + seq!['"'] + "shell"@ =~= ",\n    \"shell"@);
}

proof fn lemma_session_head(n: Seq<char>, d: Seq<char>)
    requires
        quote_free(n),
        quote_free(d),
    ensures
        join(seq!["\n    "@, "name"@, ": "@, n, ",\n    "@, "directory"@, ": "@, d, ",\n    "@, "shell"@], seq!['"'])
            == "\n    \"name\": "@ + quoted(n) + ",\n    \"directory\": "@ + quoted(d) + ",\n    \"shell"@,
{
    let q = seq!['"'];
    let h1 = seq!["\n    "@, "name"@, ": "@, n, ",\n    "@];
    let h2 = seq!["directory"@, ": "@, d, ",\n    "@, "shell"@];
    lemma_session_head1(n);
    lemma_session_head2(d);
    lemma_session_head_literals();
    lemma_escape_quote_free(n);
    lemma_escape_quote_free(d);
    lemma_join_append(h1, h2, q);
    assert(h1 + h2 =~= seq!["\n    "@, "name"@, ": "@, n, ",\n    "@, "directory"@, ": "@, d, ",\n    "@, "shell"@]);
    assert(join(h1 + h2, q) =~= "\n    \"name\": "@ + quoted(n) + ",\n    \"directory\": "@ + quoted(d) + ",\n    \"shell"@);
}

proof fn lemma_session_literals()
    ensures
        ",\n    \"shell"@ + "\": "@ == ",\n    \"shell\": "@,
        ",\n    "@ + seq!['"'] + "title"@ + "\": "@ == ",\n    \"title\": "@,
        ",\n    "@ + seq!['"'] + "extra_args"@ + seq!['"'] + ": "@ == ",\n    \"extra_args\": "@,
        quote_free(",\n    "@),
        quote_free("title"@),
        quote_free("extra_args"@),
{
    reveal_strlit(",\n    \"shell");
    reveal_strlit("\": ");
    reveal_strlit(",\n    \"shell\": ");
    reveal_strlit(",\n    ");
    reveal_strlit("title");
    reveal_strlit(",\n    \"title\": ");
    reveal_strlit("extra_args");
    reveal_strlit(": ");
    reveal_strlit(",\n    \"extra_args\": ");
    assert(",\n    \"shell"@ + "\": "@ =~= ",\n    \"shell\": "@);
    assert(",\n    "@ + seq!['"'] + "title"@ + "\": "@ =~= ",\n    \"title\": "@);
    assert(",\n    "@ + seq!['"'] + "extra_args"@ + seq!['"'] + ": "@ =~= ",\n    \"extra_args\": "@);
}

proof fn lemma_join_groups5(
    g1: Seq<Seq<char>>,
    g2: Seq<Seq<char>>,
    g3: Seq<Seq<char>>,
    g4: Seq<Seq<char>>,
    g5: Seq<Seq<char>>,
    q: Seq<char>,
)
    requires
        g1.len() >= 1,
        g2.len() >= 1,
        g3.len() >= 1,
        g4.len() >= 1,
        g5.len() >= 1,
    ensures
        join(g1 + g2 + g3 + g4 + g5, q) == join(g1, q) + (q + join(g2, q)) + (q + join(g3, q)) + (q
            + join(g4, q)) + (q + join(g5, q)),
{
    lemma_join_append(g1, g2, q);
    lemma_join_append(g1 + g2, g3, q);
    lemma_join_append(g1 + g2 + g3, g4, q);
    lemma_join_append(g1 + g2 + g3 + g4, g5, q);
    assert(join(g1 + g2 + g3 + g4 + g5, q) =~= join(g1, q) + (q + join(g2, q)) + (q + join(g3, q))
        + (q + join(g4, q)) + (q + join(g5, q)));
}

proof fn lemma_session_regroup(
    x: Seq<char>,
    s1: Seq<char>,
    a: Seq<char>,
    os: Seq<char>,
    b: Seq<char>,
    q: Seq<char>,
    t: Seq<char>,
    ot: Seq<char>,
    e: Seq<char>,
    d: Seq<char>,
    f: Seq<char>,
    l6: Seq<char>,
)
    ensures
        (x + s1) + (a + os + b) + (q + t) + (a + ot + b) + (q + (e + q + (d + f + l6))) == x + (s1
            + a) + os + (b + q + t + a) + ot + (b + q + e + q + d) + f + l6,
{
    assert((x + s1) + (a + os + b) + (q + t) + (a + ot + b) + (q + (e + q + (d + f + l6))) =~= x
        + (s1 + a) + os + (b + q + t + a) + ot + (b + q + e + q + d) + f + l6);
}

proof fn lemma_session_tail(e: Seq<char>, rest: Seq<char>)
    ensures
        join(seq![e, rest], seq!['"']) == e + seq!['"'] + rest,
{
    assert(seq![e, rest].drop_first() =~= seq![rest]);
    lemma_join_unfold(seq![e, rest], seq!['"']);
    assert(join(seq![rest], seq!['"']) == rest);
}

proof fn lemma_session_pieces(s: SessionView)
    requires
        storable_session(s),
    ensures
        join(session_pieces(s), seq!['"']) == session_body(s),
{
    let q = seq!['"'];
    let g1 = seq!["\n    "@, "name"@, ": "@, s.name, ",\n    "@, "directory"@, ": "@, s.directory, ",\n    "@, "shell"@];
    let g2 = optional_pieces(s.shell, ",\n    "@);
    let g3 = seq!["title"@];
    let g4 = optional_pieces(s.title, ",\n    "@);
    let g5 = seq!["extra_args"@, ": "@ + format_args(s.extra_args) + "\n  "@];
    lemma_session_literals();
    lemma_session_head(s.name, s.directory);
    lemma_optional_pieces(s.shell, ",\n    "@);
    lemma_optional_pieces(s.title, ",\n    "@);
    lemma_session_tail("extra_args"@, ": "@ + format_args(s.extra_args) + "\n  "@);
    lemma_join_groups5(g1, g2, g3, g4, g5, q);
    assert(session_pieces(s) == g1 + g2 + g3 + g4 + g5);
    let x = "\n    \"name\": "@ + quoted(s.name) + ",\n    \"directory\": "@ + quoted(s.directory);
    let os = optional_json(s.shell);
    let ot = optional_json(s.title);
    let fa = format_args(s.extra_args);
    let j = join(session_pieces(s), q);
    assert(j == (x + ",\n    \"shell"@) + ("\": "@ + os + ",\n    "@) + (q + "title"@) + ("\": "@
        + ot + ",\n    "@) + (q + ("extra_args"@ + q + (": "@ + fa + "\n  "@)))) by {
        assert(join(g3, q) == "title"@);
    }
    lemma_session_regroup(
        x,
        ",\n    \"shell"@,
        "\": "@,
        os,
        ",\n    "@,
        q,
        "title"@,
        ot,
        "extra_args"@,
        ": "@,
        fa,
        "\n  "@,
    );
    assert(session_body(s) =~= x + ",\n    \"shell\": "@ + os + ",\n    \"title\": "@ + ot
        + ",\n    \"extra_args\": "@ + fa + "\n  "@);
    assert(j == session_body(s));
}

proof fn lemma_session_piece_facts()
    ensures
        ": "@ == seq![':', ' '],
        ": null"@ == seq![':', ' ', 'n', 'u', 'l', 'l'],
        ",\n    "@.len() > 0 && ",\n    "@[0] == ',',
        "\n    "@.len() > 0,
        "name"@.len() == 4 && "name"@[0] == 'n',
        "directory"@.len() == 9 && "directory"@[0] == 'd',
        "shell"@.len() == 5 && "shell"@[0] == 's',
        "title"@.len() == 5 && "title"@[0] == 't',
        "extra_args"@.len() == 10 && "extra_args"@[0] == 'e',
        quote_free("\n    "@),
        quote_free(",\n    "@),
        quote_free(": "@),
        quote_free("name"@),
        quote_free("directory"@),
        quote_free("shell"@),
        quote_free("title"@),
        quote_free("extra_args"@),
{
    reveal_strlit(": ");
    reveal_strlit(": null");
    reveal_strlit(",\n    ");
    reveal_strlit("\n    ");
    reveal_strlit("name");
    reveal_strlit("directory");
    reveal_strlit("shell");
    reveal_strlit("title");
    reveal_strlit("extra_args");
    assert(": "@ =~= seq![':', ' ']);
    assert(": null"@ =~= seq![':', ' ', 'n', 'u', 'l', 'l']);
}

/// Every piece of a stored session but the last is free of `"`.
proof fn lemma_session_pieces_quote_free(s: SessionView)
    requires
        storable_session(s),
    ensures
        forall|k: int|
            0 <= k < session_pieces(s).len() - 1 ==> quote_free(#[trigger] session_pieces(s)[k]),
        session_pieces(s).len() == 13 + optional_pieces(s.shell, ",\n    "@).len()
            + optional_pieces(s.title, ",\n    "@).len(),
{
    let g1 = seq!["\n    "@, "name"@, ": "@, s.name, ",\n    "@, "directory"@, ": "@, s.directory, ",\n    "@, "shell"@];
    let g2 = optional_pieces(s.shell, ",\n    "@);
    let g3 = seq!["title"@];
    let g4 = optional_pieces(s.title, ",\n    "@);
    let g5 = seq!["extra_args"@, ": "@ + format_args(s.extra_args) + "\n  "@];
    lemma_session_piece_facts();
    lemma_optional_pieces(s.shell, ",\n    "@);
    lemma_optional_pieces(s.title, ",\n    "@);
    let segs = session_pieces(s);
    assert(segs == g1 + g2 + g3 + g4 + g5);
    let n2 = g2.len() as int;
    let n4 = g4.len() as int;
    assert forall|k: int| 0 <= k < segs.len() - 1 implies quote_free(#[trigger] segs[k]) by {
        if k < 10 {
            assert(segs[k] == g1[k]);
        } else if k < 10 + n2 {
            assert(segs[k] == g2[k - 10]);
        } else if k == 10 + n2 {
            assert(segs[k] == "title"@);
        } else if k < 11 + n2 + n4 {
            assert(segs[k] == g4[k - 11 - n2]);
        } else {
            assert(segs[k] == "extra_args"@);
        }
    }
}

proof fn lemma_session_name(s: SessionView)
    requires
        storable_session(s),
    ensures
        extract_field(session_body(s), "name"@) == Some(s.name),
{
    let segs = session_pieces(s);
    lemma_session_pieces(s);
    lemma_session_pieces_quote_free(s);
    lemma_session_piece_facts();
    assert(segs[1] == "name"@ && segs[2] == ": "@ && segs[3] == s.name);
    assert(starts_with(segs[2], seq![':'])) by {
        assert(segs[2].take(1) =~= seq![':']);
    }
    lemma_extract_quoted(segs, "name"@, 1);
}

proof fn lemma_session_directory(s: SessionView)
    requires
        storable_session(s),
    ensures
        extract_field(session_body(s), "directory"@) == Some(s.directory),
{
    let segs = session_pieces(s);
    let f = "directory"@;
    lemma_session_pieces(s);
    lemma_session_pieces_quote_free(s);
    lemma_session_piece_facts();
    assert(segs[5] == f && segs[6] == ": "@ && segs[7] == s.directory);
    assert(starts_with(segs[6], seq![':'])) by {
        assert(segs[6].take(1) =~= seq![':']);
    }
    assert forall|k: int| 1 <= k < 5 implies !is_key_at(segs, f, k) by {
        if k == 1 {
            assert(segs[1] != f);
        } else if k == 2 {
            assert(segs[2] != f);
        } else if k == 3 {
            assert(segs[4][0] == ',');
        } else {
            assert(segs[4] != f) by {
                assert(segs[4][0] != f[0]);
            }
        }
        lemma_not_key(segs, f, k);
    }
    lemma_extract_quoted(segs, f, 5);
}

/// No piece before the shell key (index 9) is a key other than the first
/// four named ones.
proof fn lemma_session_head_not_key(s: SessionView, f: Seq<char>, k: int)
    requires
        storable_session(s),
        1 <= k < 9,
        f.len() >= 4,
        f[0] != ',',
        f != "name"@,
        f != "directory"@,
    ensures
        !is_key_at(session_pieces(s), f, k),
{
    let segs = session_pieces(s);
    lemma_session_piece_facts();
    lemma_session_pieces_quote_free(s);
    assert(segs[1] == "name"@ && segs[2] == ": "@ && segs[4] == ",\n    "@);
    assert(segs[5] == "directory"@ && segs[6] == ": "@ && segs[8] == ",\n    "@);
    if k == 1 || k == 5 {
    } else if k == 2 || k == 6 {
        assert(segs[k] != f);
    } else if k == 3 || k == 7 {
        assert(segs[k + 1][0] == ',');
    } else {
        assert(segs[k] != f) by {
            assert(segs[k][0] != f[0]);
        }
    }
    lemma_not_key(segs, f, k);
}

/// The pieces of an optional value: none of them is a key named by a word
/// that starts with a letter.
proof fn lemma_optional_not_key(
    segs: Seq<Seq<char>>,
    v: Option<Seq<char>>,
    f: Seq<char>,
    base: int,
    k: int,
)
    requires
        0 <= base <= k < base + optional_pieces(v, ",\n    "@).len(),
        base + optional_pieces(v, ",\n    "@).len() < segs.len(),
        forall|i: int|
            0 <= i < optional_pieces(v, ",\n    "@).len() ==> segs[base + i] == optional_pieces(
                v,
                ",\n    "@,
            )[i],
        f.len() > 2,
        f[0] != ':' && f[0] != ',',
        segs[base + optional_pieces(v, ",\n    "@).len()].len() > 0 && segs[base
            + optional_pieces(v, ",\n    "@).len()][0] != ':',
    ensures
        !is_key_at(segs, f, k),
{
    lemma_session_piece_facts();
    let g = optional_pieces(v, ",\n    "@);
    match v {
        Some(x) => {
            assert(segs[base] == ": "@ && segs[base + 1] == x && segs[base + 2] == ",\n    "@);
            if k == base {
                assert(segs[k] != f);
            } else if k == base + 1 {
                assert(segs[k + 1][0] == ',');
            } else {
                assert(segs[k] != f) by {
                    assert(segs[k][0] != f[0]);
                }
            }
        },
        None => {
            assert(segs[base + 0] == g[0]);
            assert(segs[base] == ": null"@ + ",\n    "@);
            assert(segs[k] != f) by {
                assert(segs[k][0] != f[0]);
            }
        },
    }
    lemma_not_key(segs, f, k);
}

/// The pieces of a stored session, group by group.
proof fn lemma_session_groups(s: SessionView)
    ensures
        ({
            let segs = session_pieces(s);
            let g2 = optional_pieces(s.shell, ",\n    "@);
            let g4 = optional_pieces(s.title, ",\n    "@);
            let n2 = g2.len() as int;
            let n4 = g4.len() as int;
            &&& segs.len() == 13 + n2 + n4
            &&& segs[9] == "shell"@
            &&& forall|i: int| 0 <= i < n2 ==> segs[10 + i] == g2[i]
            &&& segs[10 + n2] == "title"@
            &&& forall|i: int| 0 <= i < n4 ==> segs[11 + n2 + i] == g4[i]
            &&& segs[11 + n2 + n4] == "extra_args"@
            &&& segs[12 + n2 + n4] == ": "@ + format_args(s.extra_args) + "\n  "@
        }),
{
    let g1 = seq!["\n    "@, "name"@, ": "@, s.name, ",\n    "@, "directory"@, ": "@, s.directory, ",\n    "@, "shell"@];
    let g2 = optional_pieces(s.shell, ",\n    "@);
    let g3 = seq!["title"@];
    let g4 = optional_pieces(s.title, ",\n    "@);
    let g5 = seq!["extra_args"@, ": "@ + format_args(s.extra_args) + "\n  "@];
    let segs = session_pieces(s);
    assert(segs == g1 + g2 + g3 + g4 + g5);
}

proof fn lemma_session_shell(s: SessionView)
    requires
        storable_session(s),
    ensures
        extract_field(session_body(s), "shell"@) == s.shell,
{
    let segs = session_pieces(s);
    let f = "shell"@;
    lemma_session_pieces(s);
    lemma_session_pieces_quote_free(s);
    lemma_session_piece_facts();
    lemma_session_groups(s);
    let g2 = optional_pieces(s.shell, ",\n    "@);
    assert(segs[10int] == g2[0int]);
    assert(segs[10][0] == ':') by {
        assert(": "@[0] == ':');
    }
    assert(starts_with(segs[10], seq![':'])) by {
        assert(segs[10].take(1) =~= seq![':']);
    }
    assert forall|k: int| 1 <= k < 9 implies !is_key_at(segs, f, k) by {
        lemma_session_head_not_key(s, f, k);
    }
    match s.shell {
        Some(v) => {
            assert(segs[11int] == g2[1int]);
            lemma_extract_quoted(segs, f, 9);
        },
        None => {
            lemma_extract_null(segs, f, 9, ",\n    "@);
        },
    }
}

proof fn lemma_session_title(s: SessionView)
    requires
        storable_session(s),
    ensures
        extract_field(session_body(s), "title"@) == s.title,
{
    let segs = session_pieces(s);
    let f = "title"@;
    lemma_session_pieces(s);
    lemma_session_pieces_quote_free(s);
    lemma_session_piece_facts();
    lemma_session_groups(s);
    let g2 = optional_pieces(s.shell, ",\n    "@);
    let g4 = optional_pieces(s.title, ",\n    "@);
    let n2 = g2.len() as int;
    let m = 10 + n2;
    assert(segs[11 + n2 + 0] == g4[0]);
    assert(segs[m + 1][0] == ':') by {
        assert(": "@[0] == ':');
    }
    assert(starts_with(segs[m + 1], seq![':'])) by {
        assert(segs[m + 1].take(1) =~= seq![':']);
    }
    assert forall|k: int| 1 <= k < m implies !is_key_at(segs, f, k) by {
        if k < 9 {
            lemma_session_head_not_key(s, f, k);
        } else if k == 9 {
            assert(segs[9] != f) by {
                assert(segs[9][0] != f[0]);
            }
            lemma_not_key(segs, f, k);
        } else {
            lemma_optional_not_key(segs, s.shell, f, 10, k);
        }
    }
    match s.title {
        Some(v) => {
            assert(segs[11 + n2 + 1] == g4[1]);
            lemma_extract_quoted(segs, f, m);
        },
        None => {
            lemma_extract_null(segs, f, m, ",\n    "@);
        },
    }
}

/// Cleaning the pieces of quoted arguments joined by `, ` (with white space
/// in front) gives the arguments back.
proof fn lemma_clean_joined(args: Seq<Seq<char>>, pre: Seq<char>)
    requires
        args.len() >= 1,
        all_white_space(pre),
        forall|i: int| 0 <= i < args.len() ==> listable_arg(#[trigger] args[i]),
    ensures
        clean_args(
            split_char(pre + join(args.map_values(|a: Seq<char>| quoted(a)), ", "@), ','),
        ) == args,
    decreases args.len(),
{
    let qa = args.map_values(|a: Seq<char>| quoted(a));
    let a0 = args[0];
    assert(listable_arg(a0));
    assert(qa[0] == quoted(a0));
    let x = pre + quoted(a0);
    assert(!is_white_space(','));
    assert(!is_white_space('"'));
    lemma_quoted_avoids(a0, ',');
    assert(avoids(x, ',')) by {
        assert forall|i: int| 0 <= i < x.len() implies x[i] != ',' by {
            if i < pre.len() {
                assert(is_white_space(pre[i]));
            } else {
                assert(x[i] == quoted(a0)[i - pre.len()]);
            }
        }
    }
    lemma_escape_quote_free(a0);
    assert(quoted(a0)[0] == '"');
    lemma_trim_start_prefix(pre, quoted(a0));
    assert(quoted(a0).last() == '"');
    lemma_trim_end_stops(quoted(a0));
    assert(trim(x) == quoted(a0));
    lemma_trim_char_quoted(a0);
    reveal_strlit(", ");
    if args.len() == 1 {
        assert(join(qa, ", "@) == qa[0]);
        lemma_split_avoiding(x, ',');
        assert(seq![x].drop_first() =~= Seq::<Seq<char>>::empty());
        assert(clean_args(Seq::<Seq<char>>::empty()) == Seq::<Seq<char>>::empty());
        assert(seq![x][0] == x);
        assert(clean_args(seq![x]) =~= seq![a0]);
        assert(args =~= seq![a0]);
    } else {
        lemma_join_unfold(qa, ", "@);
        let rest = args.drop_first();
        let qr = rest.map_values(|a: Seq<char>| quoted(a));
        assert(qa.drop_first() =~= qr);
        let y = seq![' '] + join(qr, ", "@);
        assert(", "@ =~= seq![',', ' ']);
        assert(pre + join(qa, ", "@) =~= x + seq![','] + y);
        lemma_split_head(x, y, ',');
        assert(all_white_space(seq![' '])) by {
            assert(is_white_space(' '));
        }
        assert forall|i: int| 0 <= i < rest.len() implies listable_arg(#[trigger] rest[i]) by {
            assert(rest[i] == args[i + 1]);
        }
        lemma_clean_joined(rest, seq![' ']);
        assert((seq![x] + split_char(y, ',')).drop_first() =~= split_char(y, ','));
        assert(args =~= seq![a0] + rest);
    }
}

proof fn lemma_session_args(s: SessionView)
    requires
        storable_session(s),
    ensures
        extract_args(session_body(s)) == s.extra_args,
{
    let segs = session_pieces(s);
    let f = "extra_args"@;
    lemma_session_pieces(s);
    lemma_session_pieces_quote_free(s);
    lemma_session_piece_facts();
    lemma_session_groups(s);
    reveal_strlit("extra_args");
    reveal_strlit(": ");
    reveal_strlit(", ");
    reveal_strlit("\n  ");
    let g2 = optional_pieces(s.shell, ",\n    "@);
    let g4 = optional_pieces(s.title, ",\n    "@);
    let n2 = g2.len() as int;
    let n4 = g4.len() as int;
    let m = 11 + n2 + n4;
    let fa = format_args(s.extra_args);
    let last = ": "@ + fa + "\n  "@;
    assert(segs[m + 1] == last);
    assert(last[0] == ':');
    assert(starts_with(segs[m + 1], seq![':'])) by {
        assert(segs[m + 1].take(1) =~= seq![':']);
    }
    assert forall|k: int| 1 <= k < m implies !is_key_at(segs, f, k) by {
        if k < 9 {
            lemma_session_head_not_key(s, f, k);
        } else if k == 9 || k == 10 + n2 {
            assert(segs[k] != f) by {
                assert(segs[k][0] != f[0]);
            }
            lemma_not_key(segs, f, k);
        } else if k < 10 + n2 {
            lemma_optional_not_key(segs, s.shell, f, 10, k);
        } else {
            lemma_optional_not_key(segs, s.title, f, 11 + n2, k);
        }
    }
    lemma_find_key(segs, f, m);
    lemma_skip_unfold(segs, m + 1);
    assert(segs.skip(m + 1) =~= seq![last]);
    let body = session_body(s);
    let p = find(body, field_key(f))->Some_0;
    let after = body.skip(p + field_key(f).len());
    assert(after == last.drop_first());
    assert(after =~= seq![' '] + (fa + "\n  "@));
    assert(all_white_space(seq![' '])) by {
        assert(is_white_space(' '));
    }
    assert(fa[0] == '[');
    assert(!is_white_space('['));
    lemma_trim_start_prefix(seq![' '], fa + "\n  "@);
    assert forall|k: int| 0 <= k < s.extra_args.len() implies listable_arg(
        #[trigger] s.extra_args[k],
    ) by {
        assert(storable_arg(s.extra_args[k]));
    }
    lemma_args_list(s.extra_args, "\n  "@);
}

/// A stored argument list, followed by anything, reads back as that list:
/// it opens with `[`, its first `]` closes it, and what stands between reads
/// back as the arguments.
proof fn lemma_args_list(a: Seq<Seq<char>>, tail: Seq<char>)
    requires
        forall|k: int| 0 <= k < a.len() ==> listable_arg(#[trigger] a[k]),
    ensures
        starts_with(format_args(a) + tail, seq!['[']),
        find(format_args(a) + tail, seq![']']) matches Some(end) && clean_args(
            split_char((format_args(a) + tail).subrange(1, end), ','),
        ) == a,
{
    reveal_strlit(", ");
    let fa = format_args(a);
    let rest = fa + tail;
    let qa = a.map_values(|x: Seq<char>| quoted(x));
    let j = join(qa, ", "@);
    assert(fa == seq!['['] + j + seq![']']);
    assert(rest.take(1) =~= seq!['[']);
    // The closing bracket is the first one.
    assert forall|k: int| 0 <= k < qa.len() implies avoids(#[trigger] qa[k], ']') by {
        assert(listable_arg(a[k]));
        lemma_quoted_avoids(a[k], ']');
    }
    lemma_brace_literals();
    lemma_join_avoids(qa, ", "@, ']');
    assert forall|i: int| 0 <= i < 1 + j.len() implies rest[i] != ']' by {
        if i > 0 {
            assert(rest[i] == j[i - 1]);
        }
    }
    lemma_find_char(rest, ']', (1 + j.len()) as int);
    assert(rest.subrange(1, (1 + j.len()) as int) =~= j);
    if a.len() == 0 {
        assert(j == Seq::<char>::empty());
        assert(split_char(Seq::<char>::empty(), ',') == seq![Seq::<char>::empty()]);
        assert(trim(Seq::<char>::empty()) == Seq::<char>::empty());
        assert(seq![Seq::<char>::empty()].drop_first() =~= Seq::<Seq<char>>::empty());
        assert(clean_args(Seq::<Seq<char>>::empty()) == Seq::<Seq<char>>::empty());
        assert(clean_args(seq![Seq::<char>::empty()]) == Seq::<Seq<char>>::empty());
        assert(a =~= Seq::<Seq<char>>::empty());
    } else {
        assert(all_white_space(Seq::<char>::empty()));
        lemma_clean_joined(a, Seq::<char>::empty());
        assert(Seq::<char>::empty() + j =~= j);
    }
}

/// An argument list written under its key reads back unchanged, empty and
/// blank arguments included, whenever no argument holds a `"`, `,` or `]`.
pub proof fn lemma_args_roundtrip(a: Seq<Seq<char>>)
    requires
        forall|k: int| 0 <= k < a.len() ==> listable_arg(#[trigger] a[k]),
    ensures
        extract_args(field_key("extra_args"@) + " "@ + format_args(a)) == a,
{
    reveal_strlit(" ");
    let key = field_key("extra_args"@);
    let input = key + " "@ + format_args(a);
    assert(occurs_at(input, key, 0)) by {
        assert(input.subrange(0, key.len() as int) =~= key);
    }
    lemma_find_from_at(input, key, 0, 0);
    let after = input.skip(key.len() as int);
    assert(after =~= seq![' '] + format_args(a));
    assert(all_white_space(seq![' '])) by {
        assert(is_white_space(' '));
    }
    assert(format_args(a)[0] == '[');
    assert(!is_white_space('['));
    lemma_trim_start_prefix(seq![' '], format_args(a));
    assert(format_args(a) + Seq::<char>::empty() =~= format_args(a));
    lemma_args_list(a, Seq::empty());
}

/// A stored session's body reads back as that session.
proof fn lemma_session_object(s: SessionView)
    requires
        storable_session(s),
    ensures
        parse_object(session_body(s)) == Some(s),
{
    lemma_session_name(s);
    lemma_session_directory(s);
    lemma_session_shell(s);
    lemma_session_title(s);
    lemma_session_args(s);
}

/// Without a `{` there is no session to read.
proof fn lemma_parse_sessions_none(x: Seq<char>)
    requires
        avoids(x, '{'),
    ensures
        parse_sessions(x) == Seq::<SessionView>::empty(),
{
    assert forall|j: int| 0 <= j implies !occurs_at(x, seq!['{'], j) by {
        if occurs_at(x, seq!['{'], j) {
            assert(x.subrange(j, j + 1)[0] == x[j]);
        }
    }
    lemma_find_from_none(x, seq!['{'], 0);
}

/// Text without a `{` in front of the sessions changes nothing.
proof fn lemma_parse_sessions_prefix(pre: Seq<char>, x: Seq<char>)
    requires
        avoids(pre, '{'),
    ensures
        parse_sessions(pre + x) == parse_sessions(x),
{
    let s = pre + x;
    let b = seq!['{'];
    assert forall|j: int| 0 <= j < pre.len() implies !occurs_at(s, b, j) by {
        if occurs_at(s, b, j) {
            assert(s.subrange(j, j + 1)[0] == s[j]);
            assert(s[j] == pre[j]);
        }
    }
    lemma_find_skip_start(s, b, pre.len() as int);
    lemma_find_shift(pre, x, b);
    match find(x, b) {
        Some(st) => {
            lemma_find_from(x, b, 0);
            assert(s.skip(pre.len() + st + 1) =~= x.skip(st + 1));
        },
        None => {
        },
    }
}

/// One session object in braces, then the rest.
proof fn lemma_parse_sessions_object(body: Seq<char>, tail: Seq<char>)
    requires
        avoids(body, '}'),
    ensures
        parse_sessions(seq!['{'] + body + seq!['}'] + tail) == (match parse_object(body) {
            Some(v) => seq![v],
            None => Seq::<SessionView>::empty(),
        }) + parse_sessions(tail),
{
    let s = seq!['{'] + body + seq!['}'] + tail;
    lemma_find_char(s, '{', 0);
    let after = s.skip(1);
    assert(after =~= body + seq!['}'] + tail);
    assert forall|j: int| 0 <= j < body.len() implies after[j] != '}' by {
        assert(after[j] == body[j]);
    }
    lemma_find_char(after, '}', body.len() as int);
    assert(after.take(body.len() as int) =~= body);
    assert(after.skip((body.len() + 1) as int) =~= tail);
}

/// Which braces and brackets the fixed text of a stored session holds.
proof fn lemma_brace_literals()
    ensures
        avoids("\n    \"name\": "@, '}'),
        avoids(",\n    \"directory\": "@, '}'),
        avoids(",\n    \"shell\": "@, '}'),
        avoids(",\n    \"title\": "@, '}'),
        avoids(",\n    \"extra_args\": "@, '}'),
        avoids("\n  "@, '}'),
        avoids(", "@, '}'),
        avoids(", "@, ']'),
        avoids("[\n"@, '{'),
        avoids("\n]"@, '{'),
        avoids("  "@, '{'),
        avoids(",\n"@, '{'),
        "  {\n    \"name\": "@ == "  "@ + seq!['{'] + "\n    \"name\": "@,
        "\n  }"@ == "\n  "@ + seq!['}'],
{
    reveal_strlit("\n    \"name\": ");
    reveal_strlit(",\n    \"directory\": ");
    reveal_strlit(",\n    \"shell\": ");
    reveal_strlit(",\n    \"title\": ");
    reveal_strlit(",\n    \"extra_args\": ");
    reveal_strlit("\n  ");
    reveal_strlit(", ");
    reveal_strlit("[\n");
    reveal_strlit("\n]");
    reveal_strlit("  ");
    reveal_strlit(",\n");
    reveal_strlit("  {\n    \"name\": ");
    reveal_strlit("\n  }");
    assert("  {\n    \"name\": "@ =~= "  "@ + seq!['{'] + "\n    \"name\": "@);
    assert("\n  }"@ =~= "\n  "@ + seq!['}']);
}

/// A storable session's body has no closing brace.
proof fn lemma_body_avoids(s: SessionView)
    requires
        storable_session(s),
    ensures
        avoids(session_body(s), '}'),
        avoids(format_args(s.extra_args), '}'),
{
    let c = '}';
    lemma_brace_literals();
    reveal_strlit("null");
    lemma_quoted_avoids(s.name, c);
    lemma_quoted_avoids(s.directory, c);
    lemma_optional_avoids(s.shell, c);
    lemma_optional_avoids(s.title, c);
    let qa = s.extra_args.map_values(|a: Seq<char>| quoted(a));
    assert forall|k: int| 0 <= k < qa.len() implies avoids(#[trigger] qa[k], c) by {
        assert(storable_arg(s.extra_args[k]));
        lemma_quoted_avoids(s.extra_args[k], c);
    }
    lemma_join_avoids(qa, ", "@, c);
    let fa = format_args(s.extra_args);
    assert forall|i: int| 0 <= i < fa.len() implies fa[i] != c by {
        if 0 < i < fa.len() - 1 {
            assert(fa[i] == join(qa, ", "@)[i - 1]);
        }
    }
}

/// A stored session is its body in braces, indented.
proof fn lemma_format_session_braces(s: SessionView)
    ensures
        format_session(s) == "  "@ + seq!['{'] + session_body(s) + seq!['}'],
{
    lemma_brace_literals();
    assert(format_session(s) =~= "  "@ + seq!['{'] + session_body(s) + seq!['}']);
}

/// The indent before a stored session and the separator between two hold
/// no `{`.
proof fn lemma_joined_literals()
    ensures
        avoids("  "@, '{'),
        avoids(",\n"@, '{'),
{
    reveal_strlit("  ");
    reveal_strlit(",\n");
}

/// The first stored session of a list, read back.
proof fn lemma_parse_first(s0: SessionView, more: Seq<char>)
    requires
        storable_session(s0),
    ensures
        parse_sessions(format_session(s0) + more) == seq![s0] + parse_sessions(more),
{
    lemma_format_session_braces(s0);
    lemma_body_avoids(s0);
    lemma_session_object(s0);
    lemma_joined_literals();
    let body = session_body(s0);
    assert(format_session(s0) + more =~= "  "@ + (seq!['{'] + body + seq!['}'] + more));
    lemma_parse_sessions_prefix("  "@, seq!['{'] + body + seq!['}'] + more);
    lemma_parse_sessions_object(body, more);
}

proof fn lemma_parse_joined(ss: Seq<SessionView>, tail: Seq<char>)
    requires
        ss.len() >= 1,
        forall|i: int| 0 <= i < ss.len() ==> storable_session(#[trigger] ss[i]),
        avoids(tail, '{'),
    ensures
        parse_sessions(join(ss.map_values(|s: SessionView| format_session(s)), ",\n"@) + tail)
            == ss,
    decreases ss.len(),
{
    let f = ss.map_values(|s: SessionView| format_session(s));
    let s0 = ss[0];
    assert(storable_session(s0));
    assert(f[0] == format_session(s0));
    lemma_joined_literals();
    if ss.len() == 1 {
        assert(join(f, ",\n"@) == f[0]);
        lemma_parse_first(s0, tail);
        lemma_parse_sessions_none(tail);
        assert(ss =~= seq![s0]);
    } else {
        lemma_join_unfold(f, ",\n"@);
        let rest = ss.drop_first();
        let fr = rest.map_values(|s: SessionView| format_session(s));
        assert(f.drop_first() =~= fr);
        let more = ",\n"@ + (join(fr, ",\n"@) + tail);
        assert(join(f, ",\n"@) + tail =~= format_session(s0) + more);
        lemma_parse_first(s0, more);
        lemma_parse_sessions_prefix(",\n"@, join(fr, ",\n"@) + tail);
        assert forall|i: int| 0 <= i < rest.len() implies storable_session(#[trigger] rest[i]) by {
            assert(rest[i] == ss[i + 1]);
        }
        lemma_parse_joined(rest, tail);
        assert(ss =~= seq![s0] + rest);
    }
}

/// Reading back what saving a list of sessions wrote gives that list, for
/// every list of sessions whose strings the store keeps apart.
pub proof fn lemma_sessions_roundtrip(ss: Seq<SessionView>)
    requires
        forall|i: int| 0 <= i < ss.len() ==> storable_session(#[trigger] ss[i]),
    ensures
        parse_sessions(stored_sessions(ss)) == ss,
{
    lemma_brace_literals();
    let f = ss.map_values(|s: SessionView| format_session(s));
    let tail = "\n]"@.push('\n');
    assert(avoids(tail, '{'));
    assert(stored_sessions(ss) =~= "[\n"@ + (join(f, ",\n"@) + tail));
    lemma_parse_sessions_prefix("[\n"@, join(f, ",\n"@) + tail);
    if ss.len() == 0 {
        assert(join(f, ",\n"@) == Seq::<char>::empty());
        assert(join(f, ",\n"@) + tail =~= tail);
        lemma_parse_sessions_none(tail);
        assert(ss =~= Seq::<SessionView>::empty());
    } else {
        lemma_parse_joined(ss, tail);
    }
}

/// Saving a session and reading the store back: the list read back is the
/// updated list, and looking up the session's name gives the session.
pub proof fn lemma_saved_session_found(before: Seq<SessionView>, t: SessionView)
    requires
        forall|i: int| 0 <= i < before.len() ==> storable_session(#[trigger] before[i]),
        storable_session(t),
    ensures
        parse_sessions(stored_sessions(upsert(before, t))) == upsert(before, t),
        lookup(parse_sessions(stored_sessions(upsert(before, t))), t.name) == Some(t),
{
    let u = upsert(before, t);
    lemma_first_named(before, t.name);
    assert forall|i: int| 0 <= i < u.len() implies storable_session(#[trigger] u[i]) by {
        if i < before.len() && u[i] != t {
            assert(u[i] == before[i]);
        }
    }
    lemma_sessions_roundtrip(u);
    lemma_upsert_lookup(before, t);
}

} // verus!
