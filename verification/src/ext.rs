//! The trusted boundary: the only places where outside crates are called.
//! Each wrapper's contract states no more than the crate's source shows.

use vstd::prelude::*;
use vstd::string::*;

verus! {

/// A configuration document as plain values: the strings, arrays and tables
/// the schema reads. Leaves of any other kind (numbers, booleans, dates)
/// appear as `Other` and are rejected by the shape checks that consume them.
#[derive(Debug, PartialEq)]
pub enum TomlValue {
    Text(String),
    List(Vec<TomlValue>),
    Table(Vec<(String, TomlValue)>),
    Other,
}

/// Whether the TOML parser accepts the document text.
pub uninterp spec fn toml_accepts(s: Seq<char>) -> bool;

/// The value tree the TOML parser reads out of the document text — a
/// function of the text alone.
pub uninterp spec fn toml_tree_of(s: Seq<char>) -> TomlValue;

/// Declares the outside tree type so that it can pass through the
/// conversion below; its contents stay opaque to the verifier.
#[verifier::external_type_specification]
#[verifier::external_body]
pub struct ExTomlValue(toml::Value);

/// Relies on `toml::from_str::<toml::Value>`: parses TOML text into its
/// value tree, a function of the text alone. The tree is handed back as
/// plain values; table entries come back in the parser's own key order.
#[verifier::external_body]
pub fn parse_toml_str(s: &str) -> (r: Result<TomlValue, String>)
    ensures
        r is Ok <==> toml_accepts(s@),
        r matches Ok(t) ==> t == toml_tree_of(s@),
{
    match toml::from_str::<toml::Value>(s) {
        Ok(v) => Ok(toml_to_value(v)),
        Err(e) => Err(e.to_string()),
    }
}

/// Relies on `toml::Value`'s public variants: converts the outside tree to
/// the library's own, one arm per variant, recursing through arrays and
/// tables.
#[verifier::external_body]
fn toml_to_value(v: toml::Value) -> TomlValue {
    match v {
        toml::Value::String(s) => TomlValue::Text(s),
        toml::Value::Array(items) => TomlValue::List(
            items.into_iter().map(toml_to_value).collect(),
        ),
        toml::Value::Table(table) => TomlValue::Table(
            table.into_iter().map(|(k, x)| (k, toml_to_value(x))).collect(),
        ),
        _ => TomlValue::Other,
    }
}

/// Relies on `dotenv::from_filename`: reads the `KEY=VALUE` file at `path`
/// and installs its variables into the process environment, keeping
/// variables that are already present. Whether it succeeds depends on the
/// file system, so nothing more is promised.
#[verifier::external_body]
pub fn load_env_file(path: &str) -> (r: bool) {
    dotenv::from_filename(path).is_ok()
}

/// Relies on `dotenv::var`: reads a variable from the process environment
/// (after a one-time attempt to load `./.env`). The result depends on the
/// environment, so nothing more is promised.
#[verifier::external_body]
pub fn env_var_lookup(name: &str) -> (r: Option<String>) {
    dotenv::var(name).ok()
}

/// Whether `n` is the view of one of the given names.
pub open spec fn name_among(n: Seq<char>, names: Seq<String>) -> bool {
    exists|j: int| 0 <= j < names.len() && n == (#[trigger] names[j])@
}

/// The entries of `r` are, in order, a subsequence of the requested names:
/// `ks` gives the strictly increasing request indices each entry came from.
pub open spec fn snapshot_of_names(
    r: Seq<(String, String)>,
    names: Seq<String>,
    ks: Seq<int>,
) -> bool {
    &&& ks.len() == r.len()
    &&& forall|x: int, y: int| 0 <= x < y < ks.len() ==> ks[x] < ks[y]
    &&& forall|x: int|
        0 <= x < ks.len() ==> 0 <= #[trigger] ks[x] < names.len() && (r[x].0)@ == (names[ks[x]])@
}

/// Reads each named variable from the process environment. The snapshot
/// holds one entry per name that was found, in request order, each carrying
/// a requested name — no entry is fabricated and none reordered; whether a
/// given name is found depends on the environment.
#[verifier::loop_isolation(false)]
pub fn read_env_vars(names: &Vec<String>) -> (r: Vec<(String, String)>)
    ensures
        exists|ks: Seq<int>| snapshot_of_names(r@, names@, ks),
        forall|i: int| 0 <= i < r@.len() ==> name_among((#[trigger] r@[i]).0@, names@),
{
    let mut out: Vec<(String, String)> = Vec::new();
    let ghost mut ks: Seq<int> = Seq::empty();
    let mut i: usize = 0;
    while i < names.len()
        invariant
            0 <= i <= names@.len(),
            snapshot_of_names(out@, names@, ks),
            forall|x: int| 0 <= x < ks.len() ==> #[trigger] ks[x] < i,
            forall|k: int| 0 <= k < out@.len() ==> name_among((#[trigger] out@[k]).0@, names@),
        decreases names@.len() - i,
    {
        match env_var_lookup(names[i].as_str()) {
            Some(v) => {
                let name = names[i].clone();
                out.push((name, v));
                proof {
                    ks = ks.push(i as int);
                    assert((out@[out@.len() - 1].0)@ == (names@[i as int])@);
                    assert(name_among(out@[out@.len() - 1].0@, names@));
                }
            },
            None => {},
        }
        i = i + 1;
    }
    proof {
        assert(snapshot_of_names(out@, names@, ks));
    }
    out
}

/// Loads each declared environment file, in declaration order, into the
/// process environment. Fails, naming the file, when a file cannot be read
/// or parsed; whether a given file loads depends on the file system.
/// An empty declaration list always succeeds.
///
/// Loading follows standard dotenv semantics: a variable already present in
/// the process environment is kept, so of two files declaring the same key
/// the earlier one prevails. This is a deliberate decision: the loader the
/// original used behaves this way, and the configuration documentation's
/// own reference to standard dotenv semantics agrees with it.
#[verifier::loop_isolation(false)]
pub fn load_env_files(env_files: &Vec<String>) -> (r: Result<(), String>)
    ensures
        env_files@.len() == 0 ==> r is Ok,
{
    let mut i: usize = 0;
    while i < env_files.len()
        invariant
            0 <= i <= env_files@.len(),
        decreases env_files@.len() - i,
    {
        if !load_env_file(env_files[i].as_str()) {
            let mut msg = "Requested environment variable file '".to_owned();
            msg.append(env_files[i].as_str());
            msg.append(
                "' could not be loaded. Either the file doesn't exist, Bonnie doesn't have the permissions necessary to access it, or something inside it can't be processed.",
            );
            return Err(msg);
        }
        i = i + 1;
    }
    Ok(())
}

} // verus!
