//! Wire formats: their names and extensions, and detection of the format
//! of a file from its path or its content.
use vstd::prelude::*;
use crate::error::Error;
use crate::text::{ascii_lower, ascii_upper, is_ascii_text, parse_i64, parse_i64_spec, split_spec, split_str, str_eq, strings_view, to_lowercase, lowercase_of, to_owned_string, trim, trim_spec};
use crate::value::{FloatValue, Val, Value, clone_value, entries_insert, insert_all, lemma_view_variant, strs_view, val_get, val_keys, opt_as_str, view_entries, view_values};

verus! {

/// Supported wire formats.
#[derive(Clone, Copy, Debug, PartialEq, Eq, Structural)]
pub enum FormatKind {
    Json,
    Yaml,
    Toml,
    Hcl,
    Csv,
    MsgPack,
}

/// Canonical extensions of a format.
pub open spec fn extensions_spec(f: FormatKind) -> Seq<Seq<char>> {
    match f {
        FormatKind::Json => seq!["json"@, "jsonl"@, "geojson"@],
        FormatKind::Yaml => seq!["yaml"@, "yml"@],
        FormatKind::Toml => seq!["toml"@],
        FormatKind::Hcl => seq!["hcl"@, "tf"@, "tfvars"@],
        FormatKind::Csv => seq!["csv"@, "tsv"@],
        FormatKind::MsgPack => seq!["msgpack"@, "mp"@],
    }
}

/// Name of a format.
pub open spec fn format_name(f: FormatKind) -> Seq<char> {
    match f {
        FormatKind::Json => "json"@,
        FormatKind::Yaml => "yaml"@,
        FormatKind::Toml => "toml"@,
        FormatKind::Hcl => "hcl"@,
        FormatKind::Csv => "csv"@,
        FormatKind::MsgPack => "msgpack"@,
    }
}

/// The format a lowercase name designates.
pub open spec fn format_of_name(n: Seq<char>) -> Option<FormatKind> {
    if n == "json"@ || n == "jsonl"@ {
        Some(FormatKind::Json)
    } else if n == "yaml"@ || n == "yml"@ {
        Some(FormatKind::Yaml)
    } else if n == "toml"@ {
        Some(FormatKind::Toml)
    } else if n == "hcl"@ || n == "tf"@ || n == "tfvars"@ || n == "terragrunt"@ {
        Some(FormatKind::Hcl)
    } else if n == "csv"@ || n == "tsv"@ {
        Some(FormatKind::Csv)
    } else if n == "msgpack"@ || n == "mp"@ || n == "messagepack"@ {
        Some(FormatKind::MsgPack)
    } else {
        None
    }
}

/// The format a lowercase extension designates.
pub open spec fn format_of_extension(e: Seq<char>) -> Option<FormatKind> {
    if e == "json"@ || e == "jsonl"@ || e == "geojson"@ {
        Some(FormatKind::Json)
    } else if e == "yaml"@ || e == "yml"@ {
        Some(FormatKind::Yaml)
    } else if e == "toml"@ {
        Some(FormatKind::Toml)
    } else if e == "hcl"@ || e == "tf"@ || e == "tfvars"@ {
        Some(FormatKind::Hcl)
    } else if e == "csv"@ || e == "tsv"@ {
        Some(FormatKind::Csv)
    } else if e == "msgpack"@ || e == "mp"@ {
        Some(FormatKind::MsgPack)
    } else {
        None
    }
}

fn eq_any(s: &str, a: &str, b: &str, c: &str, d: &str) -> (r: bool)
    ensures
        r == (s@ == a@ || s@ == b@ || s@ == c@ || s@ == d@),
{
    str_eq(s, a) || str_eq(s, b) || str_eq(s, c) || str_eq(s, d)
}

impl FormatKind {
    /// Canonical file extensions of this format.
    pub fn extensions(&self) -> (r: Vec<&'static str>)
        ensures
            Seq::new(r@.len(), |i: int| r@[i]@) == extensions_spec(*self),
    {
        let r: Vec<&'static str> = match self {
            FormatKind::Json => vec!["json", "jsonl", "geojson"],
            FormatKind::Yaml => vec!["yaml", "yml"],
            FormatKind::Toml => vec!["toml"],
            FormatKind::Hcl => vec!["hcl", "tf", "tfvars"],
            FormatKind::Csv => vec!["csv", "tsv"],
            FormatKind::MsgPack => vec!["msgpack", "mp"],
        };
        assert(Seq::new(r@.len(), |i: int| r@[i]@) =~= extensions_spec(*self));
        r
    }

    /// The format's name.
    pub fn name(&self) -> (r: &'static str)
        ensures
            r@ == format_name(*self),
    {
        match self {
            FormatKind::Json => "json",
            FormatKind::Yaml => "yaml",
            FormatKind::Toml => "toml",
            FormatKind::Hcl => "hcl",
            FormatKind::Csv => "csv",
            FormatKind::MsgPack => "msgpack",
        }
    }

    /// The format a name designates, in any letter case.
    pub fn from_name(s: &str) -> (r: Option<FormatKind>)
        ensures
            r == format_of_name(lowercase_of(s@)),
            is_ascii_text(s@) ==> r == format_of_name(ascii_lower(s@)),
    {
        let l = to_lowercase(s);
        let n = l.as_str();
        if eq_any(n, "json", "jsonl", "json", "json") {
            Some(FormatKind::Json)
        } else if eq_any(n, "yaml", "yml", "yaml", "yaml") {
            Some(FormatKind::Yaml)
        } else if str_eq(n, "toml") {
            Some(FormatKind::Toml)
        } else if eq_any(n, "hcl", "tf", "tfvars", "terragrunt") {
            Some(FormatKind::Hcl)
        } else if eq_any(n, "csv", "tsv", "csv", "csv") {
            Some(FormatKind::Csv)
        } else if eq_any(n, "msgpack", "mp", "messagepack", "msgpack") {
            Some(FormatKind::MsgPack)
        } else {
            None
        }
    }
}

/// The text after the last `.` of a path (the whole path when it has
/// none), as `rsplit('.').next()` gives it.
pub open spec fn last_dot_piece(path: Seq<char>) -> Seq<char> {
    split_spec(path, '.').last()
}

fn from_extension(e: &str) -> (r: Option<FormatKind>)
    ensures
        r == format_of_extension(e@),
{
    if eq_any(e, "json", "jsonl", "geojson", "json") {
        Some(FormatKind::Json)
    } else if eq_any(e, "yaml", "yml", "yaml", "yaml") {
        Some(FormatKind::Yaml)
    } else if str_eq(e, "toml") {
        Some(FormatKind::Toml)
    } else if eq_any(e, "hcl", "tf", "tfvars", "hcl") {
        Some(FormatKind::Hcl)
    } else if eq_any(e, "csv", "tsv", "csv", "csv") {
        Some(FormatKind::Csv)
    } else if eq_any(e, "msgpack", "mp", "msgpack", "msgpack") {
        Some(FormatKind::MsgPack)
    } else {
        None
    }
}

/// Detects the format from the extension of a path, in any letter case.
pub fn detect_from_path(path: &str) -> (r: Option<FormatKind>)
    ensures
        r == format_of_extension(lowercase_of(last_dot_piece(path@))),
        is_ascii_text(last_dot_piece(path@)) ==> r == format_of_extension(ascii_lower(last_dot_piece(path@))),
{
    let pieces = split_str(path, '.');
    proof { crate::text::lemma_split_nonempty(path@, '.'); }
    let last = pieces[pieces.len() - 1].as_str();
    assert(crate::text::strings_view(pieces@).last() == last@);
    let l = to_lowercase(last);
    from_extension(l.as_str())
}

/// Every extension the tables know.
pub open spec fn all_extensions() -> Seq<Seq<char>> {
    seq!["json"@, "jsonl"@, "geojson"@, "yaml"@, "yml"@, "toml"@, "hcl"@, "tf"@, "tfvars"@, "csv"@, "tsv"@, "msgpack"@, "mp"@]
}

proof fn lemma_extensions_distinct()
    ensures
        forall|i: int, j: int| 0 <= i < j < all_extensions().len() ==> all_extensions()[i] != all_extensions()[j],
{
    reveal_strlit("json");
    reveal_strlit("jsonl");
    reveal_strlit("geojson");
    reveal_strlit("yaml");
    reveal_strlit("yml");
    reveal_strlit("toml");
    reveal_strlit("hcl");
    reveal_strlit("tf");
    reveal_strlit("tfvars");
    reveal_strlit("csv");
    reveal_strlit("tsv");
    reveal_strlit("msgpack");
    reveal_strlit("mp");
    let l = all_extensions();
    assert forall|i: int, j: int| 0 <= i < j < l.len() implies l[i] != l[j] by {
        if l[i].len() == l[j].len() {
            assert(l[i][0] != l[j][0]);
        }
    }
}

/// The extension table: each format has extensions, all in lowercase,
/// its name among them; no extension belongs to two formats; and a
/// lowercase extension designates a format exactly when it is one of
/// that format's extensions (so [`detect_from_path`] gives `k` exactly
/// when the lowercased last piece of the path is an extension of `k`).
pub proof fn law_extension_table(k: FormatKind, k2: FormatKind, e: Seq<char>)
    ensures
        extensions_spec(k).len() > 0,
        extensions_spec(k).contains(format_name(k)),
        forall|i: int| 0 <= i < extensions_spec(k).len() ==> ascii_lower(#[trigger] extensions_spec(k)[i]) == extensions_spec(k)[i],
        k != k2 ==> !(extensions_spec(k).contains(e) && extensions_spec(k2).contains(e)),
        format_of_extension(e) == Some(k) <==> extensions_spec(k).contains(e),
{
    reveal_strlit("json");
    reveal_strlit("jsonl");
    reveal_strlit("geojson");
    reveal_strlit("yaml");
    reveal_strlit("yml");
    reveal_strlit("toml");
    reveal_strlit("hcl");
    reveal_strlit("tf");
    reveal_strlit("tfvars");
    reveal_strlit("csv");
    reveal_strlit("tsv");
    reveal_strlit("msgpack");
    reveal_strlit("mp");
    lemma_extensions_distinct();
    let l = all_extensions();
    let x = extensions_spec(k);
    assert(x[0] == format_name(k));
    assert forall|i: int| 0 <= i < x.len() implies ascii_lower(#[trigger] x[i]) == x[i] by {
        assert(ascii_lower(x[i]) =~= x[i]);
    }
    if x.contains(e) {
        let i = choose|i: int| 0 <= i < x.len() && x[i] == e;
        match k {
            FormatKind::Json => { assert(e == l[i]); },
            FormatKind::Yaml => { assert(e == l[3 + i]); },
            FormatKind::Toml => { assert(e == l[5 + i]); },
            FormatKind::Hcl => { assert(e == l[6 + i]); },
            FormatKind::Csv => { assert(e == l[9 + i]); },
            FormatKind::MsgPack => { assert(e == l[11 + i]); },
        }
        if k != k2 && extensions_spec(k2).contains(e) {
            let j = choose|j: int| 0 <= j < extensions_spec(k2).len() && extensions_spec(k2)[j] == e;
            match k2 {
                FormatKind::Json => { assert(e == l[j]); },
                FormatKind::Yaml => { assert(e == l[3 + j]); },
                FormatKind::Toml => { assert(e == l[5 + j]); },
                FormatKind::Hcl => { assert(e == l[6 + j]); },
                FormatKind::Csv => { assert(e == l[9 + j]); },
                FormatKind::MsgPack => { assert(e == l[11 + j]); },
            }
        }
    }
    if format_of_extension(e) == Some(k) {
        if e == "json"@ { assert(x[0] == e); }
        else if e == "jsonl"@ { assert(x[1] == e); }
        else if e == "geojson"@ { assert(x[2] == e); }
        else if e == "yaml"@ { assert(x[0] == e); }
        else if e == "yml"@ { assert(x[1] == e); }
        else if e == "toml"@ { assert(x[0] == e); }
        else if e == "hcl"@ { assert(x[0] == e); }
        else if e == "tf"@ { assert(x[1] == e); }
        else if e == "tfvars"@ { assert(x[2] == e); }
        else if e == "csv"@ { assert(x[0] == e); }
        else if e == "tsv"@ { assert(x[1] == e); }
        else if e == "msgpack"@ { assert(x[0] == e); }
        else { assert(x[1] == e); }
    }
}

/// A format's name comes back to it from [`FormatKind::from_name`]: the
/// name is ASCII text, and so is its uppercase form; both lowercase to a
/// name of the format.
pub proof fn law_name_round_trip(k: FormatKind)
    ensures
        is_ascii_text(format_name(k)),
        is_ascii_text(ascii_upper(format_name(k))),
        format_of_name(ascii_lower(format_name(k))) == Some(k),
        format_of_name(ascii_lower(ascii_upper(format_name(k)))) == Some(k),
{
    reveal_strlit("json");
    reveal_strlit("jsonl");
    reveal_strlit("yaml");
    reveal_strlit("yml");
    reveal_strlit("toml");
    reveal_strlit("hcl");
    reveal_strlit("tf");
    reveal_strlit("tfvars");
    reveal_strlit("terragrunt");
    reveal_strlit("csv");
    reveal_strlit("tsv");
    reveal_strlit("msgpack");
    reveal_strlit("mp");
    reveal_strlit("messagepack");
    let n = format_name(k);
    assert(ascii_lower(n) =~= n);
    assert(ascii_lower(ascii_upper(n)) =~= n);
    let earlier: Seq<Seq<char>> = match k {
        FormatKind::Json => Seq::empty(),
        FormatKind::Yaml => seq!["json"@, "jsonl"@],
        FormatKind::Toml => seq!["json"@, "jsonl"@, "yaml"@, "yml"@],
        FormatKind::Hcl => seq!["json"@, "jsonl"@, "yaml"@, "yml"@, "toml"@],
        FormatKind::Csv => seq!["json"@, "jsonl"@, "yaml"@, "yml"@, "toml"@, "hcl"@, "tf"@, "tfvars"@, "terragrunt"@],
        FormatKind::MsgPack => seq!["json"@, "jsonl"@, "yaml"@, "yml"@, "toml"@, "hcl"@, "tf"@, "tfvars"@, "terragrunt"@, "csv"@, "tsv"@],
    };
    assert forall|i: int| 0 <= i < earlier.len() implies #[trigger] earlier[i] != n by {
        assert(earlier[i][0] != n[0]);
    }
}

// ── Content detection ──────────────────────────────────────────────

/// The text of UTF-8 bytes, as `std::str::from_utf8` decodes it.
pub uninterp spec fn utf8_decode(b: Seq<u8>) -> Option<Seq<char>>;

/// Whether `rmp_serde` reads the bytes as a MessagePack document.
pub uninterp spec fn msgpack_accepts(b: Seq<u8>) -> bool;

/// Whether `serde_json` reads the text as a JSON document.
pub uninterp spec fn json_accepts(s: Seq<char>) -> bool;

/// Whether the `toml` crate reads the text as a TOML document.
pub uninterp spec fn toml_accepts(s: Seq<char>) -> bool;

/// The number of attributes and blocks of the text read as an HCL body by
/// the `hcl` crate, if it reads.
pub uninterp spec fn hcl_body_len(s: Seq<char>) -> Option<nat>;

/// Whether `serde_saphyr` reads the text as a YAML document.
pub uninterp spec fn yaml_accepts(s: Seq<char>) -> bool;

/// `std::str::from_utf8`: the text of the bytes, named by [`utf8_decode`].
#[verifier::external_body]
fn decode_utf8(b: &[u8]) -> (r: Option<&str>)
    ensures
        match r {
            Some(s) => utf8_decode(b@) == Some(s@),
            None => utf8_decode(b@) is None,
        },
{
    std::str::from_utf8(b).ok()
}

/// `rmp_serde::from_slice` into a JSON value: whether it succeeds.
#[verifier::external_body]
fn msgpack_ok(b: &[u8]) -> (r: bool)
    ensures
        r == msgpack_accepts(b@),
{
    rmp_serde::from_slice::<serde_json::Value>(b).is_ok()
}

/// `serde_json::from_str` into a JSON value: whether it succeeds.
#[verifier::external_body]
fn json_ok(s: &str) -> (r: bool)
    ensures
        r == json_accepts(s@),
{
    serde_json::from_str::<serde_json::Value>(s).is_ok()
}

/// `toml::from_str` into a TOML value: whether it succeeds.
#[verifier::external_body]
fn toml_ok(s: &str) -> (r: bool)
    ensures
        r == toml_accepts(s@),
{
    toml::from_str::<toml::Value>(s).is_ok()
}

/// `hcl::from_str` into an HCL body: the number of its structures.
#[verifier::external_body]
fn hcl_structures(s: &str) -> (r: Option<usize>)
    ensures
        match r {
            Some(n) => hcl_body_len(s@) == Some(n as nat),
            None => hcl_body_len(s@) is None,
        },
{
    hcl::from_str::<hcl::Body>(s).ok().map(|b| b.0.len())
}

/// `serde_saphyr::from_str` into a JSON value: whether it succeeds.
#[verifier::external_body]
fn yaml_ok(s: &str) -> (r: bool)
    ensures
        r == yaml_accepts(s@),
{
    serde_saphyr::from_str::<serde_json::Value>(s).is_ok()
}

/// The outcome of the detection cascade, given what each parser said:
/// undecodable bytes are MessagePack when they read as such; empty text
/// is undetectable; otherwise JSON, TOML, HCL (with at least one
/// structure) and YAML are tried in that order.
pub open spec fn cascade_spec(
    text: Option<Seq<char>>,
    msgpack: bool,
    json: bool,
    toml: bool,
    hcl: Option<nat>,
    yaml: bool,
) -> Option<FormatKind> {
    match text {
        None => if msgpack { Some(FormatKind::MsgPack) } else { None },
        Some(t) => if t.len() == 0 {
            None
        } else if json {
            Some(FormatKind::Json)
        } else if toml {
            Some(FormatKind::Toml)
        } else if (match hcl { Some(n) => n > 0, None => false }) {
            Some(FormatKind::Hcl)
        } else if yaml {
            Some(FormatKind::Yaml)
        } else {
            None
        },
    }
}

/// The detection decision from the parsers' answers (see [`cascade_spec`]).
pub fn detect_cascade(trimmed: Option<&str>, msgpack: bool, json: bool, toml: bool, hcl: Option<usize>, yaml: bool) -> (r: Option<FormatKind>)
    ensures
        r == cascade_spec(
            match trimmed { Some(t) => Some(t@), None => None },
            msgpack,
            json,
            toml,
            match hcl { Some(n) => Some(n as nat), None => None },
            yaml,
        ),
{
    match trimmed {
        None => if msgpack { Some(FormatKind::MsgPack) } else { None },
        Some(t) => if t.unicode_len() == 0 {
            None
        } else if json {
            Some(FormatKind::Json)
        } else if toml {
            Some(FormatKind::Toml)
        } else if (match hcl { Some(n) => n > 0, None => false }) {
            Some(FormatKind::Hcl)
        } else if yaml {
            Some(FormatKind::Yaml)
        } else {
            None
        },
    }
}

/// Detects the format of content by trying parsers in order: non-UTF-8
/// bytes are MessagePack if they read as such; trimmed text is tried as
/// JSON, TOML, HCL (non-empty body) and finally YAML.
pub fn detect_from_content(input: &[u8]) -> (r: Option<FormatKind>)
    ensures
        r == (match utf8_decode(input@) {
            None => cascade_spec(None, msgpack_accepts(input@), false, false, None, false),
            Some(t) => {
                let tt = trim_spec(t);
                cascade_spec(Some(tt), false, json_accepts(tt), toml_accepts(tt), hcl_body_len(tt), yaml_accepts(tt))
            },
        }),
{
    match decode_utf8(input) {
        None => detect_cascade(None, msgpack_ok(input), false, false, None, false),
        Some(text) => {
            let t = trim(text);
            if t.unicode_len() == 0 {
                return detect_cascade(Some(t), false, false, false, None, false);
            }
            let json = json_ok(t);
            if json {
                return detect_cascade(Some(t), false, true, false, None, false);
            }
            let toml = toml_ok(t);
            if toml {
                return detect_cascade(Some(t), false, false, true, None, false);
            }
            let hcl = hcl_structures(t);
            if match hcl { Some(n) => n > 0, None => false } {
                return detect_cascade(Some(t), false, false, false, hcl, false);
            }
            detect_cascade(Some(t), false, false, false, hcl, yaml_ok(t))
        },
    }
}


// ── HCL expression nodes ───────────────────────────────────────────

/// A value stands for an unevaluated HCL expression: a map (or block)
/// with an `__expr` key.
pub fn is_hcl_expression(value: &Value) -> (r: bool)
    ensures
        r == (val_get(value@, "__expr"@) is Some),
{
    value.get("__expr").is_some()
}

/// The name of the function an expression node calls, when it is a
/// function call with a textual name.
pub fn expression_func_name(value: &Value) -> (r: Option<&str>)
    ensures
        match r {
            Some(n) => opt_as_str(val_get(value@, "__expr"@)) == Some("func_call"@) && opt_as_str(val_get(value@, "name"@)) == Some(n@),
            None => !(opt_as_str(val_get(value@, "__expr"@)) == Some("func_call"@) && opt_as_str(val_get(value@, "name"@)) is Some),
        },
{
    let kind = match value.get("__expr") {
        Some(k) => k.as_str(),
        None => None,
    };
    match kind {
        Some(k) => if str_eq(k, "func_call") {
            match value.get("name") {
                Some(n) => n.as_str(),
                None => None,
            }
        } else {
            None
        },
        None => None,
    }
}



// ── CSV tables ─────────────────────────────────────────────────────

/// The header row and the records of bytes read as CSV by the `csv`
/// crate's reader, or the message of its first error.
pub uninterp spec fn csv_table_of(b: Seq<u8>) -> Result<(Seq<Seq<char>>, Seq<Seq<Seq<char>>>), Seq<char>>;

/// Views of a list of records.
pub open spec fn records_view(rows: Seq<Vec<String>>) -> Seq<Seq<Seq<char>>> {
    Seq::new(rows.len(), |i: int| strings_view(rows[i]@))
}

/// `csv::Reader` over the bytes: the header row and every record as
/// strings, named by [`csv_table_of`]; a failed read of the headers or of
/// a record gives its message, prefixed as the format reports it.
#[verifier::external_body]
fn csv_table(b: &[u8]) -> (r: Result<(Vec<String>, Vec<Vec<String>>), String>)
    ensures
        match r {
            Ok((h, rows)) => csv_table_of(b@) == Ok::<(Seq<Seq<char>>, Seq<Seq<Seq<char>>>), Seq<char>>((strings_view(h@), records_view(rows@))),
            Err(m) => csv_table_of(b@) == Err::<(Seq<Seq<char>>, Seq<Seq<Seq<char>>>), Seq<char>>(m@),
        },
{
    let mut reader = csv::Reader::from_reader(b);
    let headers = reader.headers().map_err(|e| format!("CSV headers: {e}"))?;
    let headers: Vec<String> = headers.iter().map(String::from).collect();
    let mut rows = Vec::new();
    for record in reader.records() {
        rows.push(record.map_err(|e| format!("CSV row: {e}"))?.iter().map(String::from).collect());
    }
    Ok((headers, rows))
}

/// Reads CSV bytes into the header row and the records, as strings.  A
/// read that fails is a parse error with the reader's message.
pub fn read_csv(b: &[u8]) -> (r: Result<(Vec<String>, Vec<Vec<String>>), Error>)
    ensures
        match csv_table_of(b@) {
            Ok((h, rows)) => r matches Ok((hv, rv)) && strings_view(hv@) == h && records_view(rv@) == rows,
            Err(m) => r matches Err(Error::Parse(e)) && e@ == m,
        },
{
    match csv_table(b) {
        Ok(t) => Ok(t),
        Err(m) => Err(Error::Parse(m)),
    }
}

/// The value of a CSV cell: empty is null; then an `i64`; then the float
/// `float` (the cell read as a float, where it reads as one); then the
/// booleans, in any case; else the text itself.
pub open spec fn cell_spec(s: Seq<char>, float: Option<(u64, Seq<char>)>) -> Val {
    if s.len() == 0 {
        Val::Null
    } else {
        match parse_i64_spec(s) {
            Some(n) => Val::Int(n),
            None => match float {
                Some((b, t)) => Val::Float(b, t),
                None => if lowercase_of(s) == "true"@ {
                    Val::Bool(true)
                } else if lowercase_of(s) == "false"@ {
                    Val::Bool(false)
                } else {
                    Val::Str(s)
                },
            },
        }
    }
}

/// The value of a CSV cell (see [`cell_spec`]); `float` is the cell read
/// as a float, where it reads as one.
pub fn infer_cell(s: &str, float: Option<FloatValue>) -> (r: Value)
    ensures
        r@ == cell_spec(s@, match float {
            Some(f) => Some((f.bits, f.text@)),
            None => None,
        }),
{
    if s.unicode_len() == 0 {
        return Value::Null;
    }
    match parse_i64(s) {
        Some(n) => Value::Int(n),
        None => match float {
            Some(f) => Value::Float(f),
            None => {
                let l = to_lowercase(s);
                proof {
                    reveal_strlit("true");
                    reveal_strlit("false");
                }
                if str_eq(l.as_str(), "true") {
                    Value::Bool(true)
                } else if str_eq(l.as_str(), "false") {
                    Value::Bool(false)
                } else {
                    Value::string(s)
                }
            },
        },
    }
}

/// A CSV row: each header with the cell in its column, as far as both
/// go; a repeated header keeps its first place and takes the last cell.
pub open spec fn row_spec(headers: Seq<Seq<char>>, cells: Seq<Val>) -> Val {
    let n = if headers.len() < cells.len() { headers.len() } else { cells.len() };
    Val::Object(insert_all(Seq::empty(), Seq::new(n, |i: int| (headers[i], cells[i])), n as int))
}

/// The rows of a CSV table as an array of maps (see [`row_spec`]).
pub fn csv_rows(headers: &Vec<String>, records: &Vec<Vec<Value>>) -> (r: Value)
    ensures
        r@ == Val::Array(Seq::new(records@.len(), |k: int| row_spec(strings_view(headers@), view_values(records@[k]@)))),
{
    let ghost hv = strings_view(headers@);
    let mut rows: Vec<Value> = Vec::new();
    let mut k: usize = 0;
    while k < records.len()
        invariant
            k <= records@.len(),
            hv == strings_view(headers@),
            view_values(rows@) == Seq::new(k as nat, |j: int| row_spec(hv, view_values(records@[j]@))),
        decreases records@.len() - k,
    {
        let cells = &records[k];
        let ghost cv = view_values(cells@);
        let n = if headers.len() < cells.len() { headers.len() } else { cells.len() };
        let ghost p = Seq::new(n as nat, |i: int| (hv[i], cv[i]));
        let mut m: Vec<(String, Value)> = Vec::new();
        assert(view_entries(m@) =~= Seq::<(Seq<char>, Val)>::empty());
        let mut i: usize = 0;
        while i < n
            invariant
                i <= n,
                n <= headers@.len(),
                n <= cells@.len(),
                hv == strings_view(headers@),
                cv == view_values(cells@),
                p == Seq::new(n as nat, |i: int| (hv[i], cv[i])),
                view_entries(m@) == insert_all(Seq::empty(), p, i as int),
            decreases n - i,
        {
            assert(p[i as int] == (headers@[i as int]@, cells@[i as int]@));
            entries_insert(&mut m, to_owned_string(headers[i].as_str()), clone_value(&cells[i]));
            i = i + 1;
        }
        let row = Value::map(m);
        let ghost x = row_spec(hv, cv);
        assert(row@ == x);
        let ghost before = view_values(rows@);
        rows.push(row);
        assert(view_values(rows@) =~= before.push(x));
        assert(Seq::new((k + 1) as nat, |j: int| row_spec(hv, view_values(records@[j]@)))
            =~= Seq::new(k as nat, |j: int| row_spec(hv, view_values(records@[j]@))).push(x));
        k = k + 1;
    }
    Value::array(rows)
}

/// The header row a value is written as CSV under: the keys of its
/// first row (none for an empty array); anything but an array is an
/// error.
pub fn csv_headers(value: &Value) -> (r: Result<Vec<String>, Error>)
    ensures
        match value@ {
            Val::Array(rows) => r matches Ok(h) && strings_view(h@) == (if rows.len() == 0 { Seq::empty() } else { val_keys(rows[0]) }),
            _ => r matches Err(Error::Format(m)) && m@ == "CSV serialize: expected array of objects"@,
        },
{
    proof {
        lemma_view_variant(*value);
    }
    match value {
        Value::Array(rows) => {
            if rows.len() == 0 {
                let h: Vec<String> = Vec::new();
                assert(strings_view(h@) =~= Seq::<Seq<char>>::empty());
                Ok(h)
            } else {
                assert(view_values(rows@)[0] == rows@[0]@);
                let keys = rows[0].keys();
                let mut h: Vec<String> = Vec::new();
                let mut i: usize = 0;
                while i < keys.len()
                    invariant
                        i <= keys@.len(),
                        strings_view(h@) == strs_view(keys@).take(i as int),
                    decreases keys@.len() - i,
                {
                    let ghost before = strings_view(h@);
                    h.push(to_owned_string(keys[i]));
                    assert(strings_view(h@) =~= before.push(keys@[i as int]@));
                    assert(strs_view(keys@).take(i + 1) =~= strs_view(keys@).take(i as int).push(keys@[i as int]@));
                    i = i + 1;
                }
                assert(strs_view(keys@).take(keys@.len() as int) =~= strs_view(keys@));
                Ok(h)
            }
        },
        _ => Err(Error::Format(to_owned_string("CSV serialize: expected array of objects"))),
    }
}

} // verus!
