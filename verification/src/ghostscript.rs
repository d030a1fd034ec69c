//! Finding a Ghostscript executable, reading its version, and what a
//! compression run asks of it. Starting processes and looking at the file
//! system are done by the caller, through the closures and outcomes that
//! these functions take.
use vstd::prelude::*;
use vstd::utf8::{decode_utf8, valid_utf8};
use crate::models::CompressionLevel;
use crate::path::{join, path_key, same_path, PathSyntax};
use crate::path_list::{join_file_name, path_entries, split_path_list};
use crate::text::{push_signed_decimal, signed_decimal, texts, trim, trim_white};

verus! {

/// What running `<executable> --version` gave.
pub enum VersionProbe {
    /// The process ran; whether it exited successfully, and what it wrote
    /// on standard output.
    Exited { success: bool, stdout: Vec<u8> },
    /// The process could not be started; the system's error message.
    NotStarted { error: String },
}

/// What running Ghostscript on a document gave.
pub enum RunOutcome {
    /// The process ran; whether it exited successfully, and its exit code
    /// when it has one.
    Finished { success: bool, code: Option<i32> },
    /// The process could not be started; the system's error message.
    NotStarted { error: String },
}

/// The text that `String::from_utf8_lossy` makes of `bytes`.
pub uninterp spec fn utf8_lossy(bytes: Seq<u8>) -> Seq<char>;

/// Calls `String::from_utf8_lossy`. Its contract claims that the result is
/// a function of the bytes alone, and, as std documents, that valid UTF-8
/// is decoded as it stands. How invalid sequences are replaced is not
/// stated.
#[verifier::external_body]
fn decode_lossy(bytes: &[u8]) -> (r: String)
    ensures
        r@ == utf8_lossy(bytes@),
        valid_utf8(bytes@) ==> r@ == decode_utf8(bytes@),
{
    String::from_utf8_lossy(bytes).into_owned()
}

pub open spec fn spawn_failure_message(path: Seq<char>, error: Seq<char>) -> Seq<char> {
    "Impossible d'exécuter '"@ + path + "': "@ + error
}

pub open spec fn not_ghostscript_message(path: Seq<char>) -> Seq<char> {
    "'"@ + path + "' ne semble pas être un exécutable Ghostscript valide"@
}

pub open spec fn no_version_message(path: Seq<char>) -> Seq<char> {
    "Impossible de récupérer la version depuis '"@ + path + "'"@
}

/// The version read from the text that `--version` printed: the text
/// without surrounding white space, refused when nothing is left.
pub open spec fn version_from(path: Seq<char>, text: Seq<char>) -> Result<Seq<char>, Seq<char>> {
    let v = trim_white(text);
    if v.len() == 0 {
        Err(no_version_message(path))
    } else {
        Ok(v)
    }
}

/// What a `--version` probe of `path` tells: its version, or why it is not
/// a usable Ghostscript.
pub open spec fn probe_version(path: Seq<char>, probe: VersionProbe) -> Result<Seq<char>, Seq<char>> {
    match probe {
        VersionProbe::NotStarted { error } => Err(spawn_failure_message(path, error@)),
        VersionProbe::Exited { success, stdout } => if !success {
            Err(not_ghostscript_message(path))
        } else {
            version_from(path, utf8_lossy(stdout@))
        },
    }
}

/// The texts of a result of strings.
pub open spec fn result_text<T: View<V = Seq<char>>>(r: Result<T, String>) -> Result<Seq<char>, Seq<char>> {
    match r {
        Ok(v) => Ok(v@),
        Err(e) => Err(e@),
    }
}

/// Reads the version from the text that `--version` printed.
pub fn version_from_text(path: &str, text: &str) -> (r: Result<String, String>)
    ensures
        result_text(r) == version_from(path@, text@),
{
    let v = trim(text);
    if v.as_str().is_empty() {
        let mut m = String::from_str("Impossible de récupérer la version depuis '");
        m.append(path);
        m.append("'");
        Err(m)
    } else {
        Ok(v)
    }
}

/// Reads the version out of a `--version` probe of `path`.
pub fn get_version(path: &str, probe: &VersionProbe) -> (r: Result<String, String>)
    ensures
        result_text(r) == probe_version(path@, *probe),
{
    match probe {
        VersionProbe::NotStarted { error } => {
            let mut m = String::from_str("Impossible d'exécuter '");
            m.append(path);
            m.append("': ");
            m.append(error.as_str());
            Err(m)
        },
        VersionProbe::Exited { success, stdout } => {
            if !*success {
                let mut m = String::from_str("'");
                m.append(path);
                m.append("' ne semble pas être un exécutable Ghostscript valide");
                Err(m)
            } else {
                let text = decode_lossy(stdout.as_slice());
                version_from_text(path, text.as_str())
            }
        },
    }
}

/// An executable found to be Ghostscript, with the version it reported.
#[derive(Debug)]
pub struct Ghostscript {
    executable: String,
    version: String,
}

/// A probe of `c` ended in an error.
pub open spec fn probe_failed<F: Fn(&String) -> VersionProbe>(probe: F, c: String) -> bool {
    exists|o: VersionProbe| #[trigger] call_ensures(probe, (&c,), o) && probe_version(c@, o) is Err
}

/// A probe of `c` reported version `v`.
pub open spec fn probe_found<F: Fn(&String) -> VersionProbe>(probe: F, c: String, v: Seq<char>) -> bool {
    exists|o: VersionProbe| #[trigger] call_ensures(probe, (&c,), o) && probe_version(c@, o) == Ok::<Seq<char>, Seq<char>>(v)
}

impl Ghostscript {
    #[verifier::type_invariant]
    spec fn reported_a_version(self) -> bool {
        self.version@.len() > 0
    }

    pub closed spec fn executable_text(&self) -> Seq<char> {
        self.executable@
    }

    pub closed spec fn version_text(&self) -> Seq<char> {
        self.version@
    }

    /// The first of `candidates` whose probe reports a version, probing them
    /// in order and stopping at the first that does.
    pub fn detect<F: Fn(&String) -> VersionProbe>(candidates: &Vec<String>, probe: F) -> (r: Option<Self>)
        requires
            forall|c: &String| #[trigger] call_requires(probe, (c,)),
        ensures
            match r {
                Some(g) => exists|i: int|
                    0 <= i < candidates.len() && g.executable_text() == #[trigger] candidates[i]@
                        && probe_found(probe, candidates[i], g.version_text()) && forall|j: int|
                        0 <= j < i ==> probe_failed(probe, #[trigger] candidates[j]),
                None => forall|j: int|
                    0 <= j < candidates.len() ==> probe_failed(probe, #[trigger] candidates[j]),
            },
    {
        let mut i: usize = 0;
        while i < candidates.len()
            invariant
                i <= candidates.len(),
                forall|c: &String| #[trigger] call_requires(probe, (c,)),
                forall|j: int| 0 <= j < i ==> probe_failed(probe, #[trigger] candidates[j]),
            decreases candidates.len() - i,
        {
            let outcome = probe(&candidates[i]);
            match get_version(candidates[i].as_str(), &outcome) {
                Ok(version) => {
                    let g = Ghostscript { executable: candidates[i].clone(), version };
                    assert(probe_found(probe, candidates[i as int], g.version_text()));
                    return Some(g);
                },
                Err(_) => {
                    assert(probe_failed(probe, candidates[i as int]));
                },
            }
            i = i + 1;
        }
        None
    }

    /// The Ghostscript at `path`, given what its `--version` probe gave.
    pub fn from_path(path: String, probe: &VersionProbe) -> (r: Result<Self, String>)
        ensures
            match r {
                Ok(g) => g.executable_text() == path@ && probe_version(path@, *probe) == Ok::<
                    Seq<char>,
                    Seq<char>,
                >(g.version_text()),
                Err(e) => probe_version(path@, *probe) == Err::<Seq<char>, Seq<char>>(e@),
            },
    {
        match get_version(path.as_str(), probe) {
            Ok(version) => Ok(Ghostscript { executable: path, version }),
            Err(e) => Err(e),
        }
    }

    pub fn executable(&self) -> (r: &str)
        ensures
            r@ == self.executable_text(),
    {
        self.executable.as_str()
    }

    /// The version Ghostscript reported; never empty.
    pub fn version(&self) -> (r: &str)
        ensures
            r@ == self.version_text(),
            r@.len() > 0,
    {
        proof {
            use_type_invariant(self);
        }
        self.version.as_str()
    }

    /// Another handle on the same executable.
    pub fn duplicate(&self) -> (r: Self)
        ensures
            r.executable_text() == self.executable_text(),
            r.version_text() == self.version_text(),
    {
        proof {
            use_type_invariant(self);
        }
        Ghostscript { executable: self.executable.clone(), version: self.version.clone() }
    }

    /// Compresses `input` into `output` (paths in `syntax`) at `level`:
    /// refuses a missing input and an output that is the input, otherwise
    /// runs Ghostscript through `run` with the arguments of
    /// `compression_arguments`.
    pub fn compress<F: Fn(&String, &Vec<String>) -> RunOutcome>(
        &self,
        syntax: PathSyntax,
        input: &str,
        output: &str,
        level: CompressionLevel,
        input_is_file: bool,
        run: F,
    ) -> (r: Result<(), String>)
        requires
            forall|x: &String, a: &Vec<String>| #[trigger] call_requires(run, (x, a)),
        ensures
            match command_for(syntax, input@, output@, level, input_is_file) {
                Err(e) => r is Err && r->Err_0@ == e,
                Ok(args) => exists|x: String, a: Vec<String>, o: RunOutcome|
                    x@ == self.executable_text() && texts(a@) == args && #[trigger] call_ensures(
                        run,
                        (&x, &a),
                        o,
                    ) && unit_result_text(r) == run_result(x@, o),
            },
    {
        match compression_command(syntax, input, output, level, input_is_file) {
            Err(e) => Err(e),
            Ok(args) => {
                let outcome = run(&self.executable, &args);
                let r = finish_run(self.executable.as_str(), &outcome);
                assert(call_ensures(run, (&self.executable, &args), outcome));
                r
            },
        }
    }
}

// ---------------------------------------------------------------------------
// Where to look for Ghostscript

/// The systems whose Ghostscript locations are known.
#[derive(Debug, Clone, Copy, PartialEq, Eq, Structural)]
pub enum Platform {
    Linux,
    MacOs,
    Windows,
    Other,
}

/// How `PATH` is read on `platform`.
pub open spec fn syntax_of(platform: Platform) -> PathSyntax {
    match platform {
        Platform::Windows => PathSyntax::Windows,
        _ => PathSyntax::Unix,
    }
}

/// The executable names looked up in `PATH`, in order.
pub open spec fn search_names_of(platform: Platform) -> Seq<Seq<char>> {
    match platform {
        Platform::Linux | Platform::MacOs => seq!["gs"@],
        Platform::Windows => seq!["gswin64c.exe"@, "gswin32c.exe"@],
        Platform::Other => Seq::empty(),
    }
}

/// The usual install locations, tried after `PATH`.
pub open spec fn usual_locations(platform: Platform) -> Seq<Seq<char>> {
    match platform {
        Platform::Linux => seq!["/usr/bin/gs"@, "/usr/local/bin/gs"@],
        Platform::MacOs => seq!["/opt/homebrew/bin/gs"@, "/usr/local/bin/gs"@],
        _ => Seq::empty(),
    }
}

pub open spec fn str_texts(v: Seq<&str>) -> Seq<Seq<char>> {
    v.map_values(|t: &str| t@)
}

/// The executable names to look up in `PATH` on `platform`, in order.
pub fn search_names(platform: Platform) -> (r: Vec<&'static str>)
    ensures
        str_texts(r@) == search_names_of(platform),
{
    proof {
        reveal_strlit("gs");
        reveal_strlit("gswin64c.exe");
        reveal_strlit("gswin32c.exe");
    }
    let mut r: Vec<&'static str> = Vec::new();
    match platform {
        Platform::Linux | Platform::MacOs => {
            r.push("gs");
        },
        Platform::Windows => {
            r.push("gswin64c.exe");
            r.push("gswin32c.exe");
        },
        Platform::Other => {},
    }
    assert(str_texts(r@) =~= search_names_of(platform));
    r
}

/// The paths to try, in order: those found in `PATH`, then the usual
/// install locations of `platform`.
pub fn candidates(platform: Platform, found: Vec<String>) -> (r: Vec<String>)
    ensures
        texts(r@) == texts(found@) + usual_locations(platform),
{
    let mut r = found;
    let ghost first = texts(r@);
    match platform {
        Platform::Linux => {
            r.push(String::from_str("/usr/bin/gs"));
            r.push(String::from_str("/usr/local/bin/gs"));
        },
        Platform::MacOs => {
            r.push(String::from_str("/opt/homebrew/bin/gs"));
            r.push(String::from_str("/usr/local/bin/gs"));
        },
        _ => {},
    }
    assert(texts(r@) =~= first + usual_locations(platform));
    r
}

/// `is_file` answered `answer` for a path with text `t`.
pub open spec fn reported<F: Fn(&String) -> bool>(is_file: F, t: Seq<char>, answer: bool) -> bool {
    exists|s: String| s@ == t && #[trigger] call_ensures(is_file, (&s,), answer)
}

/// The text of an optional string slice.
pub open spec fn opt_text(o: Option<&str>) -> Option<Seq<char>> {
    match o {
        Some(v) => Some(v@),
        None => None,
    }
}

/// `found` is what a search of `path_var` for `name` gives: the first
/// directory entry, joined with `name`, that `is_file` accepted, every
/// earlier one having been refused; or nothing, when there is no `PATH` or
/// `is_file` refused every entry.
pub open spec fn first_found<F: Fn(&String) -> bool>(
    platform: Platform,
    path_var: Option<Seq<char>>,
    name: Seq<char>,
    is_file: F,
    found: Option<Seq<char>>,
) -> bool {
    let entries = path_entries(syntax_of(platform), path_var->0);
    match found {
        Some(c) => path_var is Some && exists|i: int|
            0 <= i < entries.len() && c == join(syntax_of(platform), #[trigger] entries[i], name)
                && reported(is_file, c, true) && forall|j: int|
                0 <= j < i ==> reported(
                    is_file,
                    join(syntax_of(platform), #[trigger] entries[j], name),
                    false,
                ),
        None => path_var is None || forall|j: int|
            0 <= j < entries.len() ==> reported(
                is_file,
                join(syntax_of(platform), #[trigger] entries[j], name),
                false,
            ),
    }
}

pub open spec fn opt_string_text(o: Option<String>) -> Option<Seq<char>> {
    match o {
        Some(v) => Some(v@),
        None => None,
    }
}

/// Looks for `name` in the directories of `path_var`, in order, and returns
/// the first joined path that `is_file` accepts.
pub fn find_in_path<F: Fn(&String) -> bool>(
    platform: Platform,
    path_var: Option<&str>,
    name: &str,
    is_file: F,
) -> (r: Option<String>)
    requires
        forall|s: &String| #[trigger] call_requires(is_file, (s,)),
    ensures
        first_found(platform, opt_text(path_var), name@, is_file, opt_string_text(r)),
{
    let value = match path_var {
        Some(v) => v,
        None => return None,
    };
    let syntax = match platform {
        Platform::Windows => PathSyntax::Windows,
        _ => PathSyntax::Unix,
    };
    let dirs = split_path_list(syntax, value);
    let ghost entries = path_entries(syntax_of(platform), value@);
    let mut i: usize = 0;
    while i < dirs.len()
        invariant
            i <= dirs.len(),
            syntax == syntax_of(platform),
            texts(dirs@) == entries,
            entries == path_entries(syntax_of(platform), value@),
            opt_text(path_var) == Some(value@),
            forall|s: &String| #[trigger] call_requires(is_file, (s,)),
            forall|j: int|
                0 <= j < i ==> reported(
                    is_file,
                    join(syntax_of(platform), #[trigger] entries[j], name@),
                    false,
                ),
        decreases dirs.len() - i,
    {
        let c = join_file_name(syntax, dirs[i].as_str(), name);
        assert(entries[i as int] == dirs@[i as int]@);
        if is_file(&c) {
            assert(reported(is_file, c@, true));
            let ghost es = path_entries(syntax_of(platform), opt_text(path_var)->0);
            assert(es == entries);
            assert(0 <= i < es.len() && c@ == join(syntax_of(platform), es[i as int], name@));
            assert(first_found(platform, opt_text(path_var), name@, is_file, Some(c@)));
            return Some(c);
        }
        assert(reported(is_file, c@, false));
        i = i + 1;
    }
    None
}

/// The paths found, one for each search that found one, in order.
pub open spec fn found_paths(results: Seq<Option<Seq<char>>>) -> Seq<Seq<char>>
    decreases results.len(),
{
    if results.len() == 0 {
        Seq::empty()
    } else {
        found_paths(results.drop_last()) + match results.last() {
            Some(c) => seq![c],
            None => Seq::empty(),
        }
    }
}

/// Searches `path_var` for each of the executable names of `platform`, in
/// order, and lists what was found.
pub fn search_path<F: Fn(&String) -> bool + Copy>(
    platform: Platform,
    path_var: Option<&str>,
    is_file: F,
) -> (r: Vec<String>)
    requires
        forall|s: &String| #[trigger] call_requires(is_file, (s,)),
    ensures
        exists|results: Seq<Option<Seq<char>>>|
            results.len() == search_names_of(platform).len() && (forall|k: int|
                0 <= k < results.len() ==> first_found(
                    platform,
                    opt_text(path_var),
                    search_names_of(platform)[k],
                    is_file,
                    #[trigger] results[k],
                )) && texts(r@) == found_paths(results),
{
    let names = search_names(platform);
    let mut r: Vec<String> = Vec::new();
    let ghost mut results: Seq<Option<Seq<char>>> = Seq::empty();
    let mut k: usize = 0;
    while k < names.len()
        invariant
            k <= names.len(),
            str_texts(names@) == search_names_of(platform),
            forall|s: &String| #[trigger] call_requires(is_file, (s,)),
            results.len() == k,
            forall|m: int|
                0 <= m < k ==> first_found(
                    platform,
                    opt_text(path_var),
                    search_names_of(platform)[m],
                    is_file,
                    #[trigger] results[m],
                ),
            texts(r@) == found_paths(results),
        decreases names.len() - k,
    {
        assert(names@[k as int]@ == search_names_of(platform)[k as int]);
        let found = find_in_path(platform, path_var, names[k], is_file);
        let ghost one = opt_string_text(found);
        let ghost before = texts(r@);
        match found {
            Some(c) => {
                r.push(c);
            },
            None => {},
        }
        proof {
            let old_results = results;
            results = results.push(one);
            assert(results.drop_last() =~= old_results);
            assert(texts(r@) =~= found_paths(results));
        }
        k = k + 1;
    }
    r
}

// ---------------------------------------------------------------------------
// Compression runs

/// The Ghostscript `PDFSETTINGS` preset of each level.
pub open spec fn preset_of(level: CompressionLevel) -> Seq<char> {
    match level {
        CompressionLevel::HighQuality => "/prepress"@,
        CompressionLevel::Balanced => "/ebook"@,
        CompressionLevel::Strong => "/screen"@,
    }
}

pub fn preset(level: CompressionLevel) -> (r: &'static str)
    ensures
        r@ == preset_of(level),
{
    match level {
        CompressionLevel::HighQuality => "/prepress",
        CompressionLevel::Balanced => "/ebook",
        CompressionLevel::Strong => "/screen",
    }
}

/// The Ghostscript arguments that write a compressed copy of `input` to
/// `output`.
pub open spec fn arguments_for(input: Seq<char>, output: Seq<char>, level: CompressionLevel) -> Seq<Seq<char>> {
    seq![
        "-sDEVICE=pdfwrite"@,
        "-dCompatibilityLevel=1.4"@,
        "-dPDFSETTINGS="@ + preset_of(level),
        "-dNOPAUSE"@,
        "-dQUIET"@,
        "-dBATCH"@,
        "-dDetectDuplicateImages=true"@,
        "-dCompressFonts=true"@,
        "-dSubsetFonts=true"@,
        "-sOutputFile="@ + output,
        input,
    ]
}

pub fn compression_arguments(input: &str, output: &str, level: CompressionLevel) -> (r: Vec<String>)
    ensures
        texts(r@) == arguments_for(input@, output@, level),
{
    let mut settings = String::from_str("-dPDFSETTINGS=");
    settings.append(preset(level));
    let mut target = String::from_str("-sOutputFile=");
    target.append(output);
    let mut r: Vec<String> = Vec::new();
    r.push(String::from_str("-sDEVICE=pdfwrite"));
    r.push(String::from_str("-dCompatibilityLevel=1.4"));
    r.push(settings);
    r.push(String::from_str("-dNOPAUSE"));
    r.push(String::from_str("-dQUIET"));
    r.push(String::from_str("-dBATCH"));
    r.push(String::from_str("-dDetectDuplicateImages=true"));
    r.push(String::from_str("-dCompressFonts=true"));
    r.push(String::from_str("-dSubsetFonts=true"));
    r.push(target);
    r.push(String::from_str(input));
    assert(texts(r@) =~= arguments_for(input@, output@, level));
    r
}

pub open spec fn missing_input_message(input: Seq<char>) -> Seq<char> {
    "Le fichier d'entrée '"@ + input + "' n'existe pas"@
}

pub open spec fn same_file_message() -> Seq<char> {
    "Le fichier de sortie ne peut pas être identique au fichier d'entrée"@
}

/// What a compression asks: refused when the input is not a file, or when
/// the output is the input itself (as `==` on paths in `sx` decides);
/// otherwise the arguments to run with.
pub open spec fn command_for(sx: PathSyntax, input: Seq<char>, output: Seq<char>, level: CompressionLevel, input_is_file: bool) -> Result<Seq<Seq<char>>, Seq<char>> {
    if !input_is_file {
        Err(missing_input_message(input))
    } else if path_key(sx, input) == path_key(sx, output) {
        Err(same_file_message())
    } else {
        Ok(arguments_for(input, output, level))
    }
}

pub fn compression_command(syntax: PathSyntax, input: &str, output: &str, level: CompressionLevel, input_is_file: bool) -> (r: Result<Vec<String>, String>)
    ensures
        match command_for(syntax, input@, output@, level, input_is_file) {
            Ok(args) => r is Ok && texts(r->Ok_0@) == args,
            Err(e) => r is Err && r->Err_0@ == e,
        },
{
    if !input_is_file {
        let mut m = String::from_str("Le fichier d'entrée '");
        m.append(input);
        m.append("' n'existe pas");
        return Err(m);
    }
    if same_path(syntax, input, output) {
        return Err(String::from_str("Le fichier de sortie ne peut pas être identique au fichier d'entrée"));
    }
    Ok(compression_arguments(input, output, level))
}

/// How `{:?}` writes an exit code.
pub open spec fn exit_code_text(code: Option<i32>) -> Seq<char> {
    match code {
        Some(c) => "Some("@ + signed_decimal(c as int) + ")"@,
        None => "None"@,
    }
}

/// What a Ghostscript run of `executable` amounts to.
pub open spec fn run_result(executable: Seq<char>, outcome: RunOutcome) -> Result<(), Seq<char>> {
    match outcome {
        RunOutcome::NotStarted { error } => Err("Impossible de lancer Ghostscript '"@ + executable + "': "@ + error@),
        RunOutcome::Finished { success, code } => if success {
            Ok(())
        } else {
            Err("Ghostscript a échoué avec le code "@ + exit_code_text(code))
        },
    }
}

pub open spec fn unit_result_text(r: Result<(), String>) -> Result<(), Seq<char>> {
    match r {
        Ok(()) => Ok(()),
        Err(e) => Err(e@),
    }
}

/// Turns the outcome of a Ghostscript run into the compression's result.
pub fn finish_run(executable: &str, outcome: &RunOutcome) -> (r: Result<(), String>)
    ensures
        unit_result_text(r) == run_result(executable@, *outcome),
{
    match outcome {
        RunOutcome::NotStarted { error } => {
            let mut m = String::from_str("Impossible de lancer Ghostscript '");
            m.append(executable);
            m.append("': ");
            m.append(error.as_str());
            Err(m)
        },
        RunOutcome::Finished { success, code } => {
            if *success {
                Ok(())
            } else {
                let mut m = String::from_str("Ghostscript a échoué avec le code ");
                match code {
                    Some(c) => {
                        m.append("Some(");
                        push_signed_decimal(&mut m, *c as i64);
                        m.append(")");
                    },
                    None => {
                        m.append("None");
                    },
                }
                assert(m@ =~= "Ghostscript a échoué avec le code "@ + exit_code_text(*code));
                Err(m)
            }
        },
    }
}

} // verus!
