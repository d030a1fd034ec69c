//! The compressor's state and how user actions and finished jobs change it.
//! Drawing the window, file dialogs, threads and channels stay with the
//! caller, which hands in what the user picked and what a job sent back.
use vstd::prelude::*;
use crate::compression::{
    generate_output_path_in, has_pdf_extension, is_pdf_in, lemma_output_path_is_pdf, output_path_for, pdf_word,
};
use crate::ghostscript::{command_for, probe_version, run_result, Ghostscript, RunOutcome, VersionProbe};
use crate::models::{CompressionLevel, CompressionResult, CompressionStatus};
use crate::prefix::win_sep;
use crate::path::{
    body_start, ends_ignorable, ends_in_dot_dot_extension, extension_of, file_name,
    last_dot, last_span, lemma_last_dot_before, lemma_last_dot_range, lemma_last_span_at,
    lemma_last_span_plain, lemma_shape_kept, lemma_trim_len, lemma_trim_len_prefix, parent, path_file_name, path_with_extension, seps_of, stem_of, trim_len, with_extension, is_dot_name, is_sep, PathSyntax, Seps,
};
use crate::text::texts;

verus! {

/// `path` itself when it already has a `pdf` extension (any case), otherwise
/// `path` with its extension replaced by `pdf`; read in `sx`.
pub open spec fn with_pdf_extension(sx: PathSyntax, path: Seq<char>) -> Seq<char> {
    if has_pdf_extension(sx, path) {
        path
    } else {
        with_extension(sx, path, pdf_word())
    }
}

/// Makes sure a chosen output file name, read in `syntax`, ends in `.pdf`.
pub fn ensure_pdf_extension_in(syntax: PathSyntax, path: &str) -> (r: String)
    ensures
        r@ == with_pdf_extension(syntax, path@),
        file_name(syntax, path@) is Some && !ends_in_dot_dot_extension(syntax, path@) ==> {
            &&& has_pdf_extension(syntax, r@)
            &&& parent(syntax, r@) == parent(syntax, path@)
            &&& (r@ == path@) == has_pdf_extension(syntax, path@)
        },
{
    proof {
        if file_name(syntax, path@) is Some && !ends_in_dot_dot_extension(syntax, path@) {
            lemma_pdf_extension_added(syntax, path@);
        }
    }
    if is_pdf_in(syntax, path) {
        String::from_str(path)
    } else {
        proof {
            reveal_strlit("pdf");
            assert("pdf"@ =~= pdf_word());
        }
        path_with_extension(syntax, path, "pdf")
    }
}

/// Makes sure a chosen Unix output file name ends in `.pdf`.
pub fn ensure_pdf_extension(path: &str) -> (r: String)
    ensures
        r@ == with_pdf_extension(PathSyntax::Unix, path@),
        file_name(PathSyntax::Unix, path@) is Some && !ends_in_dot_dot_extension(PathSyntax::Unix, path@) ==> {
            &&& has_pdf_extension(PathSyntax::Unix, r@)
            &&& parent(PathSyntax::Unix, r@) == parent(PathSyntax::Unix, path@)
            &&& (r@ == path@) == has_pdf_extension(PathSyntax::Unix, path@)
        },
{
    proof {
        if file_name(PathSyntax::Unix, path@) is Some && !ends_in_dot_dot_extension(PathSyntax::Unix, path@) {
            lemma_pdf_extension_added(PathSyntax::Unix, path@);
        }
    }
    ensure_pdf_extension_in(PathSyntax::Unix, path)
}

/// A path with a file name gets a `pdf` extension and keeps its parent,
/// and it is changed exactly when it is not already a PDF name; unless its
/// file name is `..` with an extension at its very end (such as `..x`),
/// which becomes `..`.
pub proof fn lemma_pdf_extension_added(sx: PathSyntax, p: Seq<char>)
    requires
        file_name(sx, p) is Some,
        !ends_in_dot_dot_extension(sx, p),
    ensures
        has_pdf_extension(sx, with_pdf_extension(sx, p)),
        parent(sx, with_pdf_extension(sx, p)) == parent(sx, p),
        (with_pdf_extension(sx, p) == p) == has_pdf_extension(sx, p),
{
    if !has_pdf_extension(sx, p) {
        lemma_last_span_plain(sx, p);
        let m = seps_of(sx, p);
        let f = body_start(sx, p);
        let n = file_name(sx, p)->0;
        let (s, e) = last_span(sx, p)->0;
        let st = stem_of(n);
        lemma_last_dot_range(n);
        assert(st.len() > 0);
        let k = s + st.len();
        let q = with_extension(sx, p, pdf_word());
        assert(q =~= p.take(k) + seq!['.'] + pdf_word());
        assert(p[k - 1] == n[st.len() - 1]);
        assert forall|j: int| k <= j < q.len() implies !win_sep(q[j]) && q[j] != ':' by {
            assert(q[j] == (seq!['.'] + pdf_word())[j - k]);
        }
        assert(q.take(k) =~= p.take(k));
        lemma_shape_kept(sx, p, q, k);
        let name = st + seq!['.'] + pdf_word();
        assert(q.subrange(s, q.len() as int) =~= name);
        assert forall|i: int| s <= i < q.len() implies !is_sep(m, q[i]) by {
            if i < k {
                assert(q[i] == p[i]);
            } else {
                assert(q[i] == (seq!['.'] + pdf_word())[i - k]);
            }
        }
        if s > f {
            assert(q[s - 1] == p[s - 1]);
        }
        assert(q[q.len() - 1] == 'f');
        assert(!ends_ignorable(m, q, q.len() as int));
        lemma_last_span_at(sx, q, s);
        lemma_last_dot_before(st, pdf_word());
        assert(name.skip(st.len() + 1int) =~= pdf_word());
        assert(name.len() >= 5);
        assert(!is_dot_name(name));
        assert(file_name(sx, q) == Some(name));
        assert(q.take(s) =~= p.take(s));
        lemma_trim_len_prefix(m, p, q, f, s);
        lemma_trim_len(m, p, f, s);
        let t = trim_len(m, p, f, s);
        assert(q.take(t) =~= p.take(t));
        assert(parent(sx, q) == Some(q.take(t)));
        assert(parent(sx, p) == Some(p.take(t)));
    }
}

/// Making sure of a `pdf` extension twice changes nothing more than doing
/// it once.
pub proof fn lemma_ensure_pdf_extension_idempotent(sx: PathSyntax, p: Seq<char>)
    ensures
        with_pdf_extension(sx, with_pdf_extension(sx, p)) == with_pdf_extension(sx, p),
{
    if !has_pdf_extension(sx, p) {
        let q = with_pdf_extension(sx, p);
        if file_name(sx, p) is None {
            assert(q == p);
        } else if ends_in_dot_dot_extension(sx, p) {
            lemma_last_span_plain(sx, p);
            let m = seps_of(sx, p);
            let f = body_start(sx, p);
            let n = file_name(sx, p)->0;
            let (s, e) = last_span(sx, p)->0;
            assert(q =~= p.take(s + 2));
            assert(n[1] == '.') by {
                lemma_last_dot_range(n);
            }
            assert(q[s] == '.' && q[s + 1] == '.');
            assert(p[s + 1] == n[1]);
            assert(q.take(s + 2) =~= p.take(s + 2));
            lemma_shape_kept(sx, p, q, s + 2);
            assert forall|i: int| s <= i < q.len() implies !is_sep(m, q[i]) by {}
            if s > f {
                assert(q[s - 1] == p[s - 1]);
            }
            lemma_last_span_at(sx, q, s);
            assert(q.subrange(s, q.len() as int) =~= seq!['.', '.']);
            assert(file_name(sx, q) is None);
        } else {
            lemma_pdf_extension_added(sx, p);
        }
    }
}

/// The file name of `path`, or `fallback` when it has none.
pub open spec fn name_or(sx: PathSyntax, path: Seq<char>, fallback: Seq<char>) -> Seq<char> {
    match file_name(sx, path) {
        Some(n) => n,
        None => fallback,
    }
}

/// The file name of `path` for display, or `fallback` when it has none.
pub fn file_label(syntax: PathSyntax, path: &str, fallback: &str) -> (r: String)
    ensures
        r@ == name_or(syntax, path@, fallback@),
{
    match path_file_name(syntax, path) {
        Some(n) => n,
        None => String::from_str(fallback),
    }
}

/// What the window's event loop reports about the running job's channel.
pub enum ChannelEvent {
    /// The job sent its result.
    Received(Result<CompressionResult, String>),
    /// Nothing has arrived yet.
    Empty,
    /// The job ended without sending anything.
    Disconnected,
}

/// A compression to run away from the window: what to compress, where to,
/// with which Ghostscript and at which level.
pub struct CompressionJob {
    pub syntax: PathSyntax,
    pub input: String,
    pub output: String,
    pub ghostscript: Ghostscript,
    pub level: CompressionLevel,
}

/// The result of a successful run, or the first size that could not be read
/// (the input's before the output's).
pub open spec fn report_for(
    input: String,
    output: String,
    input_size: Result<u64, String>,
    output_size: Result<u64, String>,
) -> Result<CompressionResult, String> {
    match (input_size, output_size) {
        (Ok(a), Ok(b)) => Ok(CompressionResult { input, output, input_size: a, output_size: b }),
        (Err(e), _) => Err(e),
        (_, Err(e)) => Err(e),
    }
}

/// A run's report names the job's own input and output, in that order,
/// with the two sizes that were read; it succeeds exactly when both sizes
/// were read, and otherwise carries the error of the input's size if that
/// failed, else the output's.
pub proof fn lemma_report_keeps_the_job(
    input: String,
    output: String,
    input_size: Result<u64, String>,
    output_size: Result<u64, String>,
)
    ensures
        report_for(input, output, input_size, output_size) is Ok <==> (input_size is Ok && output_size is Ok),
        report_for(input, output, input_size, output_size) matches Ok(c) ==> {
            &&& c.input == input
            &&& c.output == output
            &&& input_size == Ok::<u64, String>(c.input_size)
            &&& output_size == Ok::<u64, String>(c.output_size)
        },
        input_size matches Err(e) ==> report_for(input, output, input_size, output_size) == Err::<CompressionResult, String>(e),
        input_size is Ok ==> (output_size matches Err(e) ==> report_for(input, output, input_size, output_size)
            == Err::<CompressionResult, String>(e)),
{
}

/// Puts together the result of a successful run from the two file sizes.
pub fn compression_report(
    input: String,
    output: String,
    input_size: Result<u64, String>,
    output_size: Result<u64, String>,
) -> (r: Result<CompressionResult, String>)
    ensures
        r == report_for(input, output, input_size, output_size),
        r is Ok <==> (input_size is Ok && output_size is Ok),
        r matches Ok(c) ==> c.input == input && c.output == output && Ok::<u64, String>(c.input_size)
            == input_size && Ok::<u64, String>(c.output_size) == output_size,
        input_size matches Err(e) ==> r == Err::<CompressionResult, String>(e),
        input_size is Ok ==> (output_size matches Err(e) ==> r == Err::<CompressionResult, String>(e)),
{
    proof {
        lemma_report_keeps_the_job(input, output, input_size, output_size);
    }
    match (input_size, output_size) {
        (Ok(a), Ok(b)) => Ok(CompressionResult { input, output, input_size: a, output_size: b }),
        (Err(e), _) => Err(e),
        (_, Err(e)) => Err(e),
    }
}

impl CompressionJob {
    /// Runs the job: compresses through `run`, then reads both sizes through
    /// `size_of`.
    pub fn run<R: Fn(&String, &Vec<String>) -> RunOutcome, S: Fn(&String) -> Result<u64, String>>(
        self,
        input_is_file: bool,
        run: R,
        size_of: S,
    ) -> (r: Result<CompressionResult, String>)
        requires
            forall|x: &String, a: &Vec<String>| #[trigger] call_requires(run, (x, a)),
            forall|p: &String| #[trigger] call_requires(size_of, (p,)),
        ensures
            match command_for(self.syntax, self.input@, self.output@, self.level, input_is_file) {
                Err(e) => r is Err && r->Err_0@ == e,
                Ok(args) => exists|x: String, a: Vec<String>, o: RunOutcome|
                    x@ == self.ghostscript.executable_text() && texts(a@) == args
                        && #[trigger] call_ensures(run, (&x, &a), o) && match run_result(x@, o) {
                        Err(e) => r is Err && r->Err_0@ == e,
                        Ok(()) => exists|a_size: Result<u64, String>, b_size: Result<u64, String>|
                            #[trigger] call_ensures(size_of, (&self.input,), a_size)
                                && #[trigger] call_ensures(size_of, (&self.output,), b_size)
                                && r == report_for(self.input, self.output, a_size, b_size),
                    },
            },
    {
        let outcome = self.ghostscript.compress(
            self.syntax,
            self.input.as_str(),
            self.output.as_str(),
            self.level,
            input_is_file,
            run,
        );
        match outcome {
            Ok(()) => {
                let a = size_of(&self.input);
                let b = size_of(&self.output);
                compression_report(self.input, self.output, a, b)
            },
            Err(e) => Err(e),
        }
    }
}

/// The compressor's state: the chosen files and level, the Ghostscript in
/// use, the last compression's status, and whether a job's result is still
/// awaited.
pub struct PdfCompressorApp {
    pub syntax: PathSyntax,
    pub input_file: Option<String>,
    pub output_file: Option<String>,
    pub compression_level: CompressionLevel,
    pub ghostscript: Option<Ghostscript>,
    pub ghostscript_error: Option<String>,
    pub compression_status: CompressionStatus,
    pub awaiting_result: bool,
}

/// The output file, when there is one, is one that `ensure_pdf_extension`
/// leaves as it is. Every operation that sets the output of a state for
/// Unix paths keeps this.
pub open spec fn output_settled(app: PdfCompressorApp) -> bool {
    match app.output_file {
        Some(o) => with_pdf_extension(app.syntax, o@) == o@,
        None => true,
    }
}

pub open spec fn no_input_message() -> Seq<char> {
    "Aucun fichier sélectionné"@
}

pub open spec fn no_output_message() -> Seq<char> {
    "Aucun fichier de sortie défini"@
}

pub open spec fn no_ghostscript_message() -> Seq<char> {
    "Ghostscript indisponible"@
}

pub open spec fn interrupted_message() -> Seq<char> {
    "Le thread de compression s'est interrompu"@
}

impl PdfCompressorApp {
    /// A fresh state for paths in `syntax`, around the Ghostscript found at
    /// start-up, if any: no files, balanced compression, nothing running.
    pub fn new(syntax: PathSyntax, ghostscript: Option<Ghostscript>) -> (r: Self)
        ensures
            r.syntax == syntax,
            r.input_file is None,
            r.output_file is None,
            r.compression_level == CompressionLevel::Balanced,
            r.ghostscript == ghostscript,
            r.ghostscript_error is None,
            r.compression_status is Idle,
            !r.awaiting_result,
    {
        PdfCompressorApp {
            syntax,
            input_file: None,
            output_file: None,
            compression_level: CompressionLevel::Balanced,
            ghostscript,
            ghostscript_error: None,
            compression_status: CompressionStatus::Idle,
            awaiting_result: false,
        }
    }

    pub open spec fn is_running_spec(&self) -> bool {
        self.compression_status is Running
    }

    pub fn is_running(&self) -> (r: bool)
        ensures
            r == self.is_running_spec(),
    {
        match self.compression_status {
            CompressionStatus::Running => true,
            _ => false,
        }
    }

    /// Compression can start once an input, an output and a Ghostscript are
    /// known and no compression is running.
    pub open spec fn can_compress_spec(&self) -> bool {
        &&& self.input_file is Some
        &&& self.output_file is Some
        &&& self.ghostscript is Some
        &&& !self.is_running_spec()
    }

    pub fn can_compress(&self) -> (r: bool)
        ensures
            r == self.can_compress_spec(),
    {
        let running = self.is_running();
        self.input_file.is_some() && self.output_file.is_some() && self.ghostscript.is_some()
            && !running
    }

    /// The user picked an input file (or cancelled, with `None`): it becomes
    /// the input, its default output is proposed, and the status is cleared.
    pub fn select_input_file(&mut self, picked: Option<String>)
        ensures
            match picked {
                Some(p) => {
                    &&& final(self).input_file == Some(p)
                    &&& final(self).output_file matches Some(o) && o@ == output_path_for(old(self).syntax, p@)
                    &&& (old(self).syntax is Unix ==> output_settled(*final(self)))
                    &&& final(self).syntax == old(self).syntax
                    &&& final(self).compression_status is Idle
                    &&& final(self).compression_level == old(self).compression_level
                    &&& final(self).ghostscript == old(self).ghostscript
                    &&& final(self).ghostscript_error == old(self).ghostscript_error
                    &&& final(self).awaiting_result == old(self).awaiting_result
                },
                None => *final(self) == *old(self),
            },
    {
        if let Some(path) = picked {
            proof {
                lemma_output_path_is_pdf(path@);
            }
            self.output_file = Some(generate_output_path_in(self.syntax, path.as_str()));
            self.input_file = Some(path);
            self.compression_status = CompressionStatus::Idle;
        }
    }

    /// The file name to offer in the save dialog: that of the current
    /// output, if any.
    pub fn suggested_output_name(&self) -> (r: Option<String>)
        ensures
            match self.output_file {
                Some(o) => match (r, file_name(self.syntax, o@)) {
                    (Some(n), Some(m)) => n@ == m,
                    (None, None) => true,
                    _ => false,
                },
                None => r is None,
            },
    {
        match &self.output_file {
            Some(o) => path_file_name(self.syntax, o.as_str()),
            None => None,
        }
    }

    /// The user picked where to save (or cancelled, with `None`): the file
    /// becomes the output, with a `pdf` extension.
    pub fn select_output_file(&mut self, picked: Option<String>)
        ensures
            match picked {
                Some(p) => {
                    &&& final(self).output_file matches Some(o) && o@ == with_pdf_extension(old(self).syntax, p@)
                    &&& output_settled(*final(self))
                    &&& final(self).syntax == old(self).syntax
                    &&& final(self).input_file == old(self).input_file
                    &&& final(self).compression_level == old(self).compression_level
                    &&& final(self).ghostscript == old(self).ghostscript
                    &&& final(self).ghostscript_error == old(self).ghostscript_error
                    &&& final(self).compression_status == old(self).compression_status
                    &&& final(self).awaiting_result == old(self).awaiting_result
                },
                None => *final(self) == *old(self),
            },
    {
        if let Some(path) = picked {
            proof {
                lemma_ensure_pdf_extension_idempotent(self.syntax, path@);
            }
            self.output_file = Some(ensure_pdf_extension_in(self.syntax, path.as_str()));
        }
    }

    /// The user clicked a compression level.
    pub fn choose_level(&mut self, level: CompressionLevel)
        ensures
            final(self).compression_level == level,
            final(self).input_file == old(self).input_file,
            final(self).output_file == old(self).output_file,
            final(self).ghostscript == old(self).ghostscript,
            final(self).ghostscript_error == old(self).ghostscript_error,
            final(self).compression_status == old(self).compression_status,
            final(self).awaiting_result == old(self).awaiting_result,
    {
        self.compression_level = level;
    }

    /// The user asked to compress. Without an input, an output or a
    /// Ghostscript the status says what is missing; otherwise the job to run
    /// is returned, the status becomes `Running` and its result is awaited.
    pub fn start_compression(&mut self) -> (r: Option<CompressionJob>)
        ensures
            final(self).input_file == old(self).input_file,
            final(self).output_file == old(self).output_file,
            final(self).compression_level == old(self).compression_level,
            final(self).ghostscript == old(self).ghostscript,
            final(self).ghostscript_error == old(self).ghostscript_error,
            match (old(self).input_file, old(self).output_file, old(self).ghostscript) {
                (Some(i), Some(o), Some(g)) => {
                    &&& r matches Some(job) && job.input == i && job.output == o && job.syntax == old(self).syntax
                        && job.ghostscript.executable_text() == g.executable_text()
                        && job.ghostscript.version_text() == g.version_text() && job.level
                        == old(self).compression_level
                    &&& final(self).compression_status is Running
                    &&& final(self).awaiting_result
                },
                (None, _, _) => {
                    &&& r is None
                    &&& final(self).compression_status matches CompressionStatus::Error(e) && e@
                        == no_input_message()
                    &&& final(self).awaiting_result == old(self).awaiting_result
                },
                (Some(_), None, _) => {
                    &&& r is None
                    &&& final(self).compression_status matches CompressionStatus::Error(e) && e@
                        == no_output_message()
                    &&& final(self).awaiting_result == old(self).awaiting_result
                },
                (Some(_), Some(_), None) => {
                    &&& r is None
                    &&& final(self).compression_status matches CompressionStatus::Error(e) && e@
                        == no_ghostscript_message()
                    &&& final(self).awaiting_result == old(self).awaiting_result
                },
            },
    {
        let input = match &self.input_file {
            Some(i) => i.clone(),
            None => {
                self.compression_status = CompressionStatus::Error(
                    String::from_str("Aucun fichier sélectionné"),
                );
                return None;
            },
        };
        let output = match &self.output_file {
            Some(o) => o.clone(),
            None => {
                self.compression_status = CompressionStatus::Error(
                    String::from_str("Aucun fichier de sortie défini"),
                );
                return None;
            },
        };
        let ghostscript = match &self.ghostscript {
            Some(g) => g.duplicate(),
            None => {
                self.compression_status = CompressionStatus::Error(
                    String::from_str("Ghostscript indisponible"),
                );
                return None;
            },
        };
        self.awaiting_result = true;
        self.compression_status = CompressionStatus::Running;
        Some(CompressionJob { syntax: self.syntax, input, output, ghostscript, level: self.compression_level })
    }

    /// What the job's channel reported. Only an awaited result changes the
    /// state: a result becomes the status (one success, or the error), a
    /// closed channel becomes an error, and either way nothing is awaited
    /// any more.
    pub fn check_compression_result(&mut self, event: ChannelEvent)
        ensures
            final(self).input_file == old(self).input_file,
            final(self).output_file == old(self).output_file,
            final(self).compression_level == old(self).compression_level,
            final(self).ghostscript == old(self).ghostscript,
            final(self).ghostscript_error == old(self).ghostscript_error,
            !old(self).awaiting_result ==> *final(self) == *old(self),
            old(self).awaiting_result ==> match event {
                ChannelEvent::Received(Ok(result)) => {
                    &&& final(self).compression_status matches CompressionStatus::Success(v)
                        && v@ == seq![result]
                    &&& !final(self).awaiting_result
                },
                ChannelEvent::Received(Err(e)) => {
                    &&& final(self).compression_status == CompressionStatus::Error(e)
                    &&& !final(self).awaiting_result
                },
                ChannelEvent::Empty => *final(self) == *old(self),
                ChannelEvent::Disconnected => {
                    &&& final(self).compression_status matches CompressionStatus::Error(e) && e@
                        == interrupted_message()
                    &&& !final(self).awaiting_result
                },
            },
    {
        if !self.awaiting_result {
            return ;
        }
        match event {
            ChannelEvent::Received(Ok(result)) => {
                let mut v: Vec<CompressionResult> = Vec::new();
                v.push(result);
                self.compression_status = CompressionStatus::Success(v);
                self.awaiting_result = false;
            },
            ChannelEvent::Received(Err(e)) => {
                self.compression_status = CompressionStatus::Error(e);
                self.awaiting_result = false;
            },
            ChannelEvent::Empty => {},
            ChannelEvent::Disconnected => {
                self.compression_status = CompressionStatus::Error(
                    String::from_str("Le thread de compression s'est interrompu"),
                );
                self.awaiting_result = false;
            },
        }
    }

    /// The user picked an executable to use as Ghostscript (or cancelled,
    /// with `None`), with what its `--version` probe gave: it replaces the
    /// current Ghostscript, or its error is kept and no Ghostscript is left.
    pub fn select_ghostscript(&mut self, choice: Option<(String, VersionProbe)>)
        ensures
            final(self).input_file == old(self).input_file,
            final(self).output_file == old(self).output_file,
            final(self).compression_level == old(self).compression_level,
            final(self).compression_status == old(self).compression_status,
            final(self).awaiting_result == old(self).awaiting_result,
            match choice {
                Some((path, probe)) => match probe_version(path@, probe) {
                    Ok(v) => {
                        &&& final(self).ghostscript matches Some(g) && g.executable_text() == path@
                            && g.version_text() == v
                        &&& final(self).ghostscript_error is None
                    },
                    Err(e) => {
                        &&& final(self).ghostscript is None
                        &&& final(self).ghostscript_error matches Some(m) && m@ == e
                    },
                },
                None => *final(self) == *old(self),
            },
    {
        if let Some((path, probe)) = choice {
            match Ghostscript::from_path(path, &probe) {
                Ok(g) => {
                    self.ghostscript = Some(g);
                    self.ghostscript_error = None;
                },
                Err(e) => {
                    self.ghostscript = None;
                    self.ghostscript_error = Some(e);
                },
            }
        }
    }

    /// The footer's line about Ghostscript.
    pub fn ghostscript_label(&self) -> (r: String)
        ensures
            r@ == match self.ghostscript {
                Some(g) => "Ghostscript "@ + g.version_text() + " ✓"@,
                None => "Ghostscript non détecté"@,
            },
    {
        match &self.ghostscript {
            Some(g) => {
                let mut s = String::from_str("Ghostscript ");
                s.append(g.version());
                s.append(" ✓");
                s
            },
            None => String::from_str("Ghostscript non détecté"),
        }
    }
}

} // verus!
