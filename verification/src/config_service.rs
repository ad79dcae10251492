//! The desktop configuration and its stored JSON-style text form.
use vstd::prelude::*;

use crate::text::{
    all_quote_free, chars_of, extract_field, extract_string_field, join,
    is_key_at, lemma_escape_quote_free, lemma_extract_null, lemma_extract_quoted, lemma_join_append, lemma_join_unfold, lemma_not_key, lemma_optional_pieces, optional_pieces, starts_with, optional_json, push_optional_json, push_quoted, push_str,
    quote_free, quoted, string_of,
};
use crate::KittyAdapterError;

verus! {

/// The desktop defaults used when kitty is launched without a session.
#[derive(Debug, Clone, PartialEq, Eq)]
pub struct DesktopConfig {
    pub default_directory: String,
    pub default_shell: Option<String>,
    pub default_title: String,
    pub kitty_config_file: Option<String>,
}

/// The mathematical content of a [`DesktopConfig`].
pub struct ConfigView {
    pub default_directory: Seq<char>,
    pub default_shell: Option<Seq<char>>,
    pub default_title: Seq<char>,
    pub kitty_config_file: Option<Seq<char>>,
}

impl View for DesktopConfig {
    type V = ConfigView;

    open spec fn view(&self) -> ConfigView {
        ConfigView {
            default_directory: self.default_directory@,
            default_shell: self.default_shell.deep_view(),
            default_title: self.default_title@,
            kitty_config_file: self.kitty_config_file.deep_view(),
        }
    }
}

/// The configuration in force when nothing has been stored.
pub open spec fn default_config() -> ConfigView {
    ConfigView {
        default_directory: "."@,
        default_shell: None,
        default_title: "kitty_desktop"@,
        kitty_config_file: None,
    }
}

impl Default for DesktopConfig {
    fn default() -> (c: Self)
        ensures
            c@ == default_config(),
    {
        DesktopConfig {
            default_directory: String::from_str("."),
            default_shell: None,
            default_title: String::from_str("kitty_desktop"),
            kitty_config_file: None,
        }
    }
}

/// Where the desktop configuration is stored.
#[derive(Debug, Clone)]
pub struct ConfigService {
    config_path: String,
}

impl ConfigService {
    pub closed spec fn spec_config_path(&self) -> Seq<char> {
        self.config_path@
    }

    pub fn new(config_path: String) -> (s: Self)
        ensures
            s.spec_config_path() == config_path@,
    {
        ConfigService { config_path }
    }

    pub fn config_path(&self) -> (p: &str)
        ensures
            p@ == self.spec_config_path(),
    {
        self.config_path.as_str()
    }

    /// The configuration given what the store holds: `None` when the file
    /// does not exist (the defaults), else its text, parsed.
    pub fn load(&self, stored: Option<&str>) -> (r: Result<DesktopConfig, KittyAdapterError>)
        ensures
            r matches Ok(c) && c@ == match stored {
                Some(t) => parse_config(t@),
                None => default_config(),
            },
    {
        match stored {
            None => Ok(DesktopConfig::default()),
            Some(t) => parse_config_json(t),
        }
    }

    /// The text that saving `config` writes to the store: the rendered
    /// configuration and a final newline.
    pub fn save(&self, config: &DesktopConfig) -> (payload: String)
        ensures
            payload@ == stored_config(config@),
    {
        let mut out = chars_of(render_config_json(config).as_str());
        out.push('\n');
        string_of(&out)
    }
}

/// The configuration read from a stored text; a missing directory or title
/// falls back to its default.
pub open spec fn parse_config(input: Seq<char>) -> ConfigView {
    ConfigView {
        default_directory: match extract_field(input, "default_directory"@) {
            Some(v) => v,
            None => "."@,
        },
        default_shell: extract_field(input, "default_shell"@),
        default_title: match extract_field(input, "default_title"@) {
            Some(v) => v,
            None => "kitty_desktop"@,
        },
        kitty_config_file: extract_field(input, "kitty_config_file"@),
    }
}

/// The rendered text of a configuration.
pub open spec fn format_config(c: ConfigView) -> Seq<char> {
    "{\n  \"default_directory\": "@ + quoted(c.default_directory) + ",\n  \"default_shell\": "@
        + optional_json(c.default_shell) + ",\n  \"default_title\": "@ + quoted(c.default_title)
        + ",\n  \"kitty_config_file\": "@ + optional_json(c.kitty_config_file) + "\n}"@
}

/// The text that saving a configuration writes.
pub open spec fn stored_config(c: ConfigView) -> Seq<char> {
    format_config(c).push('\n')
}

fn parse_config_json(input: &str) -> (r: Result<DesktopConfig, KittyAdapterError>)
    ensures
        r matches Ok(c) && c@ == parse_config(input@),
{
    let default_directory = match extract_string_field(input, "default_directory") {
        Some(v) => v,
        None => String::from_str("."),
    };
    let default_title = match extract_string_field(input, "default_title") {
        Some(v) => v,
        None => String::from_str("kitty_desktop"),
    };
    let default_shell = extract_string_field(input, "default_shell");
    let kitty_config_file = extract_string_field(input, "kitty_config_file");
    Ok(DesktopConfig { default_directory, default_shell, default_title, kitty_config_file })
}

fn format_config_json(config: &DesktopConfig) -> (s: String)
    ensures
        s@ == format_config(config@),
{
    let mut out: Vec<char> = Vec::new();
    push_str(&mut out, "{\n  \"default_directory\": ");
    push_quoted(&mut out, config.default_directory.as_str());
    push_str(&mut out, ",\n  \"default_shell\": ");
    push_optional_json(&mut out, &config.default_shell);
    push_str(&mut out, ",\n  \"default_title\": ");
    push_quoted(&mut out, config.default_title.as_str());
    push_str(&mut out, ",\n  \"kitty_config_file\": ");
    push_optional_json(&mut out, &config.kitty_config_file);
    push_str(&mut out, "\n}");
    string_of(&out)
}

/// The configuration rendered as the stored JSON-style text.
pub fn render_config_json(config: &DesktopConfig) -> (s: String)
    ensures
        s@ == format_config(config@),
{
    format_config_json(config)
}

/// A configuration whose strings hold no `"`: the stored text keeps such
/// strings apart, and reading it back gives them unchanged.
pub open spec fn storable_config(c: ConfigView) -> bool {
    &&& quote_free(c.default_directory)
    &&& quote_free(c.default_title)
    &&& (c.default_shell matches Some(s) ==> quote_free(s))
    &&& (c.kitty_config_file matches Some(s) ==> quote_free(s))
}

/// The stored text cut at its quotes, where an optional string either
/// stands between two quotes or is the word `null`.
pub open spec fn config_pieces(c: ConfigView) -> Seq<Seq<char>> {
    seq!["{\n  "@, "default_directory"@, ": "@, c.default_directory, ",\n  "@, "default_shell"@]
        + optional_pieces(c.default_shell, ",\n  "@) + seq![
        "default_title"@,
        ": "@,
        c.default_title,
        ",\n  "@,
        "kitty_config_file"@,
    ] + optional_pieces(c.kitty_config_file, "\n}\n"@)
}

proof fn lemma_head_pieces(d: Seq<char>)
    requires
        quote_free(d),
    ensures
        join(seq!["{\n  "@, "default_directory"@, ": "@, d, ",\n  "@, "default_shell"@], seq!['"'])
            == "{\n  \"default_directory\": "@ + quoted(d) + ",\n  \"default_shell"@,
        all_quote_free(seq!["{\n  "@, "default_directory"@, ": "@, d, ",\n  "@, "default_shell"@]),
{
    reveal_strlit("{\n  \"default_directory\": ");
    reveal_strlit(",\n  \"default_shell");
    reveal_strlit("{\n  ");
    reveal_strlit("default_directory");
    reveal_strlit(": ");
    reveal_strlit(",\n  ");
    reveal_strlit("default_shell");
    lemma_escape_quote_free(d);
    let q = seq!['"'];
    let s0 = seq!["{\n  "@, "default_directory"@, ": "@, d, ",\n  "@, "default_shell"@];
    let s1 = seq!["default_directory"@, ": "@, d, ",\n  "@, "default_shell"@];
    let s2 = seq![": "@, d, ",\n  "@, "default_shell"@];
    let s3 = seq![d, ",\n  "@, "default_shell"@];
    let s4 = seq![",\n  "@, "default_shell"@];
    assert(s0.drop_first() =~= s1);
    assert(s1.drop_first() =~= s2);
    assert(s2.drop_first() =~= s3);
    assert(s3.drop_first() =~= s4);
    assert(s4.drop_first() =~= seq!["default_shell"@]);
    lemma_join_unfold(s0, q);
    lemma_join_unfold(s1, q);
    lemma_join_unfold(s2, q);
    lemma_join_unfold(s3, q);
    lemma_join_unfold(s4, q);
    assert(join(seq!["default_shell"@], q) == "default_shell"@);
    assert(join(s4, q) == ",\n  "@ + q + "default_shell"@);
    assert(join(s3, q) == d + q + (",\n  "@ + q + "default_shell"@));
    assert(join(s2, q) == ": "@ + q + (d + q + (",\n  "@ + q + "default_shell"@)));
    assert(join(s1, q) == "default_directory"@ + q + (": "@ + q + (d + q + (",\n  "@ + q + "default_shell"@))));
    assert(join(s0, q) == "{\n  "@ + q + ("default_directory"@ + q + (": "@ + q + (d + q + (",\n  "@ + q + "default_shell"@)))));
    assert(join(s0, q) =~= "{\n  \"default_directory\": "@ + quoted(d) + ",\n  \"default_shell"@);
}

proof fn lemma_middle_pieces(t: Seq<char>)
    requires
        quote_free(t),
    ensures
        join(seq!["default_title"@, ": "@, t, ",\n  "@, "kitty_config_file"@], seq!['"'])
            == "default_title\": "@ + quoted(t) + ",\n  \"kitty_config_file"@,
        all_quote_free(seq!["default_title"@, ": "@, t, ",\n  "@, "kitty_config_file"@]),
{
    reveal_strlit("default_title\": ");
    reveal_strlit(",\n  \"kitty_config_file");
    reveal_strlit("default_title");
    reveal_strlit(": ");
    reveal_strlit(",\n  ");
    reveal_strlit("kitty_config_file");
    lemma_escape_quote_free(t);
    reveal_with_fuel(join, 6);
    assert(join(seq!["default_title"@, ": "@, t, ",\n  "@, "kitty_config_file"@], seq!['"'])
        =~= "default_title\": "@ + quoted(t) + ",\n  \"kitty_config_file"@);
}

proof fn lemma_config_literals()
    ensures
        ",\n  \"default_shell"@ + "\": "@ == ",\n  \"default_shell\": "@,
        ",\n  "@ + seq!['"'] + "default_title\": "@ == ",\n  \"default_title\": "@,
        ",\n  \"kitty_config_file"@ + "\": "@ == ",\n  \"kitty_config_file\": "@,
        "\n}\n"@ == "\n}"@.push('\n'),
        quote_free(",\n  "@),
        quote_free("\n}\n"@),
{
    reveal_strlit(",\n  ");
    reveal_strlit("\n}\n");
    reveal_strlit(",\n  \"default_shell");
    reveal_strlit("\": ");
    reveal_strlit(",\n  \"default_shell\": ");
    reveal_strlit("default_title\": ");
    reveal_strlit(",\n  \"default_title\": ");
    reveal_strlit(",\n  \"kitty_config_file");
    reveal_strlit(",\n  \"kitty_config_file\": ");
    reveal_strlit("\n}");
    assert(",\n  \"default_shell"@ + "\": "@ =~= ",\n  \"default_shell\": "@);
    assert(",\n  "@ + seq!['"'] + "default_title\": "@ =~= ",\n  \"default_title\": "@);
    assert(",\n  \"kitty_config_file"@ + "\": "@ =~= ",\n  \"kitty_config_file\": "@);
    assert("\n}\n"@ =~= "\n}"@.push('\n'));
}

proof fn lemma_regroup(
    l1: Seq<char>,
    d: Seq<char>,
    a1: Seq<char>,
    a2: Seq<char>,
    s: Seq<char>,
    b1: Seq<char>,
    q: Seq<char>,
    b2: Seq<char>,
    t: Seq<char>,
    c1: Seq<char>,
    c2: Seq<char>,
    k: Seq<char>,
    e: Seq<char>,
)
    ensures
        (l1 + d + a1) + (a2 + s + b1) + q + (b2 + t + c1) + (c2 + k + e) == l1 + d + (a1 + a2)
            + s + (b1 + q + b2) + t + (c1 + c2) + k + e,
{
    assert((l1 + d + a1) + (a2 + s + b1) + q + (b2 + t + c1) + (c2 + k + e) =~= l1 + d + (a1
        + a2) + s + (b1 + q + b2) + t + (c1 + c2) + k + e);
}

proof fn lemma_join_groups(
    g1: Seq<Seq<char>>,
    g2: Seq<Seq<char>>,
    g3: Seq<Seq<char>>,
    g4: Seq<Seq<char>>,
    q: Seq<char>,
)
    requires
        g1.len() >= 1,
        g2.len() >= 1,
        g3.len() >= 1,
        g4.len() >= 1,
    ensures
        join(g1 + g2 + g3 + g4, q) == join(g1, q) + (q + join(g2, q)) + q + join(g3, q) + (q
            + join(g4, q)),
{
    lemma_join_append(g1, g2, q);
    lemma_join_append(g1 + g2, g3, q);
    lemma_join_append(g1 + g2 + g3, g4, q);
    assert(join(g1 + g2 + g3 + g4, q) =~= join(g1, q) + (q + join(g2, q)) + q + join(g3, q) + (q
        + join(g4, q)));
}

proof fn lemma_config_pieces(c: ConfigView)
    requires
        storable_config(c),
    ensures
        join(config_pieces(c), seq!['"']) == stored_config(c),
        all_quote_free(config_pieces(c)),
{
    let q = seq!['"'];
    let g1 = seq!["{\n  "@, "default_directory"@, ": "@, c.default_directory, ",\n  "@, "default_shell"@];
    let g2 = optional_pieces(c.default_shell, ",\n  "@);
    let g3 = seq!["default_title"@, ": "@, c.default_title, ",\n  "@, "kitty_config_file"@];
    let g4 = optional_pieces(c.kitty_config_file, "\n}\n"@);
    lemma_config_literals();
    lemma_head_pieces(c.default_directory);
    lemma_middle_pieces(c.default_title);
    lemma_optional_pieces(c.default_shell, ",\n  "@);
    lemma_optional_pieces(c.kitty_config_file, "\n}\n"@);
    lemma_join_groups(g1, g2, g3, g4, q);
    lemma_regroup(
        "{\n  \"default_directory\": "@,
        quoted(c.default_directory),
        ",\n  \"default_shell"@,
        "\": "@,
        optional_json(c.default_shell),
        ",\n  "@,
        q,
        "default_title\": "@,
        quoted(c.default_title),
        ",\n  \"kitty_config_file"@,
        "\": "@,
        optional_json(c.kitty_config_file),
        "\n}\n"@,
    );
    assert(stored_config(c) =~= "{\n  \"default_directory\": "@ + quoted(c.default_directory)
        + ",\n  \"default_shell\": "@ + optional_json(c.default_shell) + ",\n  \"default_title\": "@
        + quoted(c.default_title) + ",\n  \"kitty_config_file\": "@ + optional_json(
        c.kitty_config_file,
    ) + "\n}\n"@);
    lemma_config_pieces_quote_free(c);
}

proof fn lemma_config_pieces_quote_free(c: ConfigView)
    requires
        storable_config(c),
    ensures
        all_quote_free(config_pieces(c)),
{
    let g1 = seq!["{\n  "@, "default_directory"@, ": "@, c.default_directory, ",\n  "@, "default_shell"@];
    let g2 = optional_pieces(c.default_shell, ",\n  "@);
    let g3 = seq!["default_title"@, ": "@, c.default_title, ",\n  "@, "kitty_config_file"@];
    let g4 = optional_pieces(c.kitty_config_file, "\n}\n"@);
    lemma_config_literals();
    lemma_head_pieces(c.default_directory);
    lemma_middle_pieces(c.default_title);
    lemma_optional_pieces(c.default_shell, ",\n  "@);
    lemma_optional_pieces(c.kitty_config_file, "\n}\n"@);
    assert(config_pieces(c) == g1 + g2 + g3 + g4);
    assert forall|k: int| 0 <= k < config_pieces(c).len() implies quote_free(
        #[trigger] config_pieces(c)[k],
    ) by {
        if k < 6 {
            assert(config_pieces(c)[k] == g1[k]);
        } else if k < 6 + g2.len() {
            assert(config_pieces(c)[k] == g2[k - 6]);
        } else if k < 11 + g2.len() {
            assert(config_pieces(c)[k] == g3[k - 6 - g2.len()]);
        } else {
            assert(config_pieces(c)[k] == g4[k - 11 - g2.len()]);
        }
    }
}

proof fn lemma_config_piece_facts()
    ensures
        ": "@ == seq![':', ' '],
        ": null"@ == seq![':', ' ', 'n', 'u', 'l', 'l'],
        ",\n  "@.len() > 0 && ",\n  "@[0] == ',',
        "\n}\n"@.len() > 0 && "\n}\n"@[0] == '\n',
        "default_directory"@.len() == 17 && "default_directory"@[0] == 'd',
        "default_shell"@.len() == 13 && "default_shell"@[0] == 'd' && "default_shell"@[8] == 's',
        "default_title"@.len() == 13 && "default_title"@[0] == 'd' && "default_title"@[8] == 't',
        "kitty_config_file"@.len() == 17 && "kitty_config_file"@[0] == 'k',
        quote_free("default_directory"@),
        quote_free("default_shell"@),
        quote_free("default_title"@),
        quote_free("kitty_config_file"@),
{
    reveal_strlit(": ");
    reveal_strlit(": null");
    reveal_strlit(",\n  ");
    reveal_strlit("\n}\n");
    reveal_strlit("default_directory");
    reveal_strlit("default_shell");
    reveal_strlit("default_title");
    reveal_strlit("kitty_config_file");
    assert(": "@ =~= seq![':', ' ']);
    assert(": null"@ =~= seq![':', ' ', 'n', 'u', 'l', 'l']);
}

proof fn lemma_config_directory(c: ConfigView)
    requires
        storable_config(c),
    ensures
        extract_field(stored_config(c), "default_directory"@) == Some(c.default_directory),
{
    let segs = config_pieces(c);
    lemma_config_pieces(c);
    lemma_config_piece_facts();
    assert(segs[1] == "default_directory"@ && segs[2] == ": "@);
    assert(starts_with(segs[2], seq![':'])) by {
        assert(segs[2].take(1) =~= seq![':']);
    }
    lemma_extract_quoted(segs, "default_directory"@, 1);
}

proof fn lemma_config_shell(c: ConfigView)
    requires
        storable_config(c),
    ensures
        extract_field(stored_config(c), "default_shell"@) == c.default_shell,
{
    let segs = config_pieces(c);
    let f = "default_shell"@;
    lemma_config_pieces(c);
    lemma_config_piece_facts();
    assert(segs[5] == f && segs[6] == optional_pieces(c.default_shell, ",\n  "@)[0]);
    assert(segs[6][0] == ':') by {
        assert(": "@[0] == ':');
    }
    assert(starts_with(segs[6], seq![':'])) by {
        assert(segs[6].take(1) =~= seq![':']);
    }
    assert forall|k: int| 1 <= k < 5 implies !is_key_at(segs, f, k) by {
        if k == 1 {
            assert(segs[1] != f);
        } else if k == 2 {
            assert(segs[2] != f);
        } else if k == 3 {
            assert(segs[4][0] == ',');
        } else {
            assert(segs[4] != f);
        }
        lemma_not_key(segs, f, k);
    }
    match c.default_shell {
        Some(s) => {
            lemma_extract_quoted(segs, f, 5);
        },
        None => {
            assert(segs[6] == ": null"@ + ",\n  "@);
            lemma_extract_null(segs, f, 5, ",\n  "@);
        },
    }
}

proof fn lemma_config_title(c: ConfigView)
    requires
        storable_config(c),
    ensures
        extract_field(stored_config(c), "default_title"@) == Some(c.default_title),
{
    let segs = config_pieces(c);
    let f = "default_title"@;
    let n = optional_pieces(c.default_shell, ",\n  "@).len() as int;
    lemma_config_pieces(c);
    lemma_config_piece_facts();
    let m = 6 + n;
    assert(segs[m] == f && segs[m + 1] == ": "@);
    assert(starts_with(segs[m + 1], seq![':'])) by {
        assert(segs[m + 1].take(1) =~= seq![':']);
    }
    assert forall|k: int| 1 <= k < m implies !is_key_at(segs, f, k) by {
        if k == 1 {
            assert(segs[1] != f);
        } else if k == 2 {
            assert(segs[2] != f);
        } else if k == 3 {
            assert(segs[4][0] == ',');
        } else if k == 4 {
            assert(segs[4] != f);
        } else if k == 5 {
            assert(segs[5] != f) by {
                assert(segs[5][8] != f[8]);
            }
        } else if n == 1 {
            assert(segs[6] != f) by {
                assert(segs[6][0] != f[0]);
            }
        } else if k == 6 {
            assert(segs[6] != f);
        } else {
            assert(segs[8][0] == ',');
        }
        lemma_not_key(segs, f, k);
    }
    lemma_extract_quoted(segs, f, m);
}

proof fn lemma_config_kitty(c: ConfigView)
    requires
        storable_config(c),
    ensures
        extract_field(stored_config(c), "kitty_config_file"@) == c.kitty_config_file,
{
    let segs = config_pieces(c);
    let f = "kitty_config_file"@;
    let n = optional_pieces(c.default_shell, ",\n  "@).len() as int;
    lemma_config_pieces(c);
    lemma_config_piece_facts();
    let m = 10 + n;
    assert(segs[m] == f && segs[m + 1] == optional_pieces(c.kitty_config_file, "\n}\n"@)[0]);
    assert(segs[m + 1][0] == ':') by {
        assert(": "@[0] == ':');
    }
    assert(starts_with(segs[m + 1], seq![':'])) by {
        assert(segs[m + 1].take(1) =~= seq![':']);
    }
    assert forall|k: int| 1 <= k < m implies !is_key_at(segs, f, k) by {
        if k == 1 {
            assert(segs[1] != f) by {
                assert(segs[1][0] != f[0]);
            }
        } else if k == 2 {
            assert(segs[2] != f);
        } else if k == 3 {
            assert(segs[4][0] == ',');
        } else if k == 4 {
            assert(segs[4] != f);
        } else if k == 5 {
            assert(segs[5] != f);
        } else if k < 6 + n {
            if n == 1 {
                assert(segs[6] != f) by {
                    assert(segs[6][0] != f[0]);
                }
            } else if k == 6 {
                assert(segs[6] != f);
            } else {
                assert(segs[8][0] == ',');
            }
        } else if k == 6 + n {
            assert(segs[k] != f) by {
                assert(segs[k][0] != f[0]);
            }
        } else if k == 7 + n {
            assert(segs[k] != f);
        } else if k == 8 + n {
            assert(segs[k + 1][0] == ',');
        } else {
            assert(segs[k] != f);
        }
        lemma_not_key(segs, f, k);
    }
    match c.kitty_config_file {
        Some(s) => {
            lemma_extract_quoted(segs, f, m);
        },
        None => {
            assert(segs[m + 1] == ": null"@ + "\n}\n"@);
            lemma_extract_null(segs, f, m, "\n}\n"@);
        },
    }
}

/// Reading back what saving a configuration wrote gives that configuration,
/// for every configuration whose strings hold no `"`.
pub proof fn lemma_config_roundtrip(c: ConfigView)
    requires
        storable_config(c),
    ensures
        parse_config(stored_config(c)) == c,
{
    lemma_config_directory(c);
    lemma_config_shell(c);
    lemma_config_title(c);
    lemma_config_kitty(c);
}

} // verus!
