//! User configuration: external commands, result counts and the embedding
//! profile.
use vstd::prelude::*;

use crate::model::clone_strings;
use crate::text;

verus! {

/// A configured external program: a bare program name, or a program followed
/// by its arguments.
#[derive(Clone, Debug, PartialEq)]
pub enum ExternalCommand {
    Program(String),
    Args(Vec<String>),
}

/// An external command with nothing to run.
#[derive(Clone, Copy, Debug, PartialEq, Eq, Structural)]
pub enum CommandError {
    Empty,
}

impl CommandError {
    pub fn message(&self) -> (m: &'static str)
        ensures
            m@ == "External command cannot be empty"@,
    {
        "External command cannot be empty"
    }
}

/// The program and arguments a command runs, or `None` when it is empty.
pub open spec fn command_parts(c: ExternalCommand) -> Option<(Seq<char>, Seq<Seq<char>>)> {
    match c {
        ExternalCommand::Program(p) => if p@.len() > 0 {
            Some((p@, seq![]))
        } else {
            None
        },
        ExternalCommand::Args(parts) => if parts@.len() > 0 && parts@[0]@.len() > 0 {
            Some((parts@[0]@, text::views(parts@).drop_first()))
        } else {
            None
        },
    }
}

impl ExternalCommand {
    /// The program and the arguments to run it with; an empty program (or an
    /// empty argument list) is an error.
    pub fn build(&self) -> (r: Result<(String, Vec<String>), CommandError>)
        ensures
            match r {
                Ok((p, a)) => command_parts(*self) == Some((p@, text::views(a@))),
                Err(_) => command_parts(*self) is None,
            },
    {
        match self {
            ExternalCommand::Program(p) => {
                if p.as_str().is_empty() {
                    return Err(CommandError::Empty);
                }
                let args: Vec<String> = Vec::new();
                assert(text::views(args@) =~= Seq::<Seq<char>>::empty());
                Ok((p.clone(), args))
            },
            ExternalCommand::Args(parts) => {
                if parts.len() == 0 || parts[0].as_str().is_empty() {
                    return Err(CommandError::Empty);
                }
                let mut args: Vec<String> = Vec::new();
                let mut i: usize = 1;
                while i < parts.len()
                    invariant
                        1 <= i <= parts@.len(),
                        text::views(args@) == text::views(parts@).subrange(1, i as int),
                    decreases parts@.len() - i,
                {
                    let ghost prev = args@;
                    let a = parts[i].clone();
                    args.push(a);
                    assert(text::views(args@) =~= text::views(prev).push(a@));
                    assert(text::views(args@) =~= text::views(parts@).subrange(1, i + 1));
                    i += 1;
                }
                assert(text::views(parts@).subrange(1, parts@.len() as int) =~= text::views(
                    parts@,
                ).drop_first());
                Ok((parts[0].clone(), args))
            },
        }
    }

    /// A copy of the command.
    pub fn copy(&self) -> (r: ExternalCommand)
        ensures
            command_parts(r) == command_parts(*self),
    {
        match self {
            ExternalCommand::Program(p) => ExternalCommand::Program(p.clone()),
            ExternalCommand::Args(parts) => ExternalCommand::Args(clone_strings(parts)),
        }
    }
}

/// How the model output is selected: by name or by position.
#[derive(Clone, Debug, PartialEq)]
pub enum EmbeddingOutput {
    Name(String),
    Index(usize),
}

/// The embedding model profile used by semantic search.
#[derive(Clone, Debug, PartialEq)]
pub struct EmbeddingConfig {
    pub repo: String,
    pub revision: String,
    pub model_file: String,
    pub external_files: Vec<String>,
    pub tokenizer_file: String,
    pub config_file: String,
    pub special_tokens_map_file: String,
    pub tokenizer_config_file: String,
    pub pooling: String,
    pub output: Option<EmbeddingOutput>,
    pub query_template: String,
    pub document_template: String,
    pub max_length: usize,
    pub batch_size: usize,
}

/// `c` is the built-in profile: a quantized EmbeddingGemma model.
pub open spec fn is_standard_profile(c: EmbeddingConfig) -> bool {
    &&& c.repo@ == "onnx-community/embeddinggemma-300m-ONNX"@
    &&& c.revision@ == "5090578d9565bb06545b4552f76e6bc2c93e4a66"@
    &&& c.model_file@ == "onnx/model_q4.onnx"@
    &&& text::views(c.external_files@) == seq!["onnx/model_q4.onnx_data"@]
    &&& c.tokenizer_file@ == "tokenizer.json"@
    &&& c.config_file@ == "config.json"@
    &&& c.special_tokens_map_file@ == "special_tokens_map.json"@
    &&& c.tokenizer_config_file@ == "tokenizer_config.json"@
    &&& c.pooling@ == "mean"@
    &&& c.output matches Some(EmbeddingOutput::Name(n)) && n@ == "sentence_embedding"@
    &&& c.query_template@ == "task: search result | query: {query}"@
    &&& c.document_template@ == "title: {title} | text: {text}"@
    &&& c.max_length == 2048
    &&& c.batch_size == 32
}

impl EmbeddingConfig {
    /// The built-in profile: a quantized EmbeddingGemma model.
    pub fn standard() -> (c: EmbeddingConfig)
        ensures
            is_standard_profile(c),
            c.repo@ == "onnx-community/embeddinggemma-300m-ONNX"@,
            c.revision@ == "5090578d9565bb06545b4552f76e6bc2c93e4a66"@,
            c.model_file@ == "onnx/model_q4.onnx"@,
            text::views(c.external_files@) == seq!["onnx/model_q4.onnx_data"@],
            c.tokenizer_file@ == "tokenizer.json"@,
            c.config_file@ == "config.json"@,
            c.special_tokens_map_file@ == "special_tokens_map.json"@,
            c.tokenizer_config_file@ == "tokenizer_config.json"@,
            c.pooling@ == "mean"@,
            c.output matches Some(EmbeddingOutput::Name(n)) && n@ == "sentence_embedding"@,
            c.query_template@ == "task: search result | query: {query}"@,
            c.document_template@ == "title: {title} | text: {text}"@,
            c.max_length == 2048,
            c.batch_size == 32,
    {
        let mut external_files: Vec<String> = Vec::new();
        external_files.push("onnx/model_q4.onnx_data".to_owned());
        assert(text::views(external_files@) =~= seq!["onnx/model_q4.onnx_data"@]);
        EmbeddingConfig {
            repo: "onnx-community/embeddinggemma-300m-ONNX".to_owned(),
            revision: "5090578d9565bb06545b4552f76e6bc2c93e4a66".to_owned(),
            model_file: "onnx/model_q4.onnx".to_owned(),
            external_files,
            tokenizer_file: "tokenizer.json".to_owned(),
            config_file: "config.json".to_owned(),
            special_tokens_map_file: "special_tokens_map.json".to_owned(),
            tokenizer_config_file: "tokenizer_config.json".to_owned(),
            pooling: "mean".to_owned(),
            output: Some(EmbeddingOutput::Name("sentence_embedding".to_owned())),
            query_template: "task: search result | query: {query}".to_owned(),
            document_template: "title: {title} | text: {text}".to_owned(),
            max_length: 2048,
            batch_size: 32,
        }
    }
}

impl Default for EmbeddingConfig {
    fn default() -> (c: EmbeddingConfig)
        ensures
            c.max_length == 2048,
            c.batch_size == 32,
            c.pooling@ == "mean"@,
    {
        EmbeddingConfig::standard()
    }
}

/// The configuration file's settings.
#[derive(Clone, Debug, PartialEq)]
pub struct Config {
    pub library: Option<String>,
    pub editor: Option<ExternalCommand>,
    pub reader: Option<ExternalCommand>,
    pub browser: Option<ExternalCommand>,
    pub theme: Option<String>,
    pub theme_catalog: Option<String>,
    pub layout: Option<String>,
    pub semantic_results: Option<usize>,
    pub embedding: EmbeddingConfig,
}

/// The command chosen among environment values, the configured command and
/// the built-in default: the first set environment value wins, then the
/// configuration, then the default program.
pub open spec fn chosen_command(
    env: Seq<Option<String>>,
    configured: Option<ExternalCommand>,
    default: Seq<char>,
) -> Option<(Seq<char>, Seq<Seq<char>>)>
    decreases env.len(),
{
    if env.len() > 0 {
        match env[0] {
            Some(v) => if v@.len() > 0 {
                Some((v@, seq![]))
            } else {
                None
            },
            None => chosen_command(env.drop_first(), configured, default),
        }
    } else {
        match configured {
            Some(c) => command_parts(c),
            None => if default.len() > 0 {
                Some((default, seq![]))
            } else {
                None
            },
        }
    }
}

/// `s` with a leading `~` (alone, or followed by `/`) replaced by the home
/// directory when there is one (`shellexpand::tilde`).
pub open spec fn tilde_expanded(s: Seq<char>, home: Option<Seq<char>>) -> Seq<char> {
    if s.len() > 0 && s[0] == '~' && (s.len() == 1 || s[1] == '/') && home is Some {
        home->0 + s.drop_first()
    } else {
        s
    }
}

/// The library directory: `GRIM_LIBRARY` when it is set (`env`), else the
/// configured path with `~` expanded, else `Papers` in the home directory
/// (in the current directory when there is no home).
pub open spec fn library_choice(
    env: Option<Seq<char>>,
    configured: Option<Seq<char>>,
    home: Option<Seq<char>>,
) -> Seq<char> {
    match env {
        Some(v) => v,
        None => match configured {
            Some(c) => tilde_expanded(c, home),
            None => crate::cli::joined(
                match home {
                    Some(h) => h,
                    None => "."@,
                },
                "Papers"@,
            ),
        },
    }
}

fn expand_tilde(s: &str, home: &Option<String>) -> (r: String)
    ensures
        r@ == tilde_expanded(s@, text::opt_view(*home)),
{
    let v = text::chars_of(s);
    if v.len() > 0 && v[0] == '~' && (v.len() == 1 || v[1] == '/') {
        if let Some(h) = home {
            let mut r = h.clone();
            let rest = text::string_from_range(&v, 1, v.len());
            text::push_str(&mut r, rest.as_str());
            assert(v@.subrange(1, v@.len() as int) =~= s@.drop_first());
            return r;
        }
    }
    s.to_owned()
}

impl Config {
    /// An empty configuration with the built-in embedding profile.
    pub fn empty() -> (c: Config)
        ensures
            c.library is None,
            c.editor is None,
            c.reader is None,
            c.browser is None,
            c.theme is None,
            c.theme_catalog is None,
            c.layout is None,
            c.semantic_results is None,
            is_standard_profile(c.embedding),
    {
        Config {
            library: None,
            editor: None,
            reader: None,
            browser: None,
            theme: None,
            theme_catalog: None,
            layout: None,
            semantic_results: None,
            embedding: EmbeddingConfig::standard(),
        }
    }

    /// The library directory, given `GRIM_LIBRARY` (`env`), the configured
    /// `library` and the home directory.
    pub fn library_dir(env: Option<String>, configured: Option<String>, home: Option<String>) -> (p: String)
        ensures
            p@ == library_choice(text::opt_view(env), text::opt_view(configured), text::opt_view(home)),
    {
        match env {
            Some(v) => v,
            None => match configured {
                Some(c) => expand_tilde(c.as_str(), &home),
                None => {
                    let base = match &home {
                        Some(h) => h.clone(),
                        None => ".".to_owned(),
                    };
                    proof {
                        reveal_strlit(".");
                    }
                    crate::cli::join_path(base.as_str(), "Papers")
                },
            },
        }
    }

    /// The number of semantic results to show: 10 by default, never zero.
    pub fn semantic_results(&self) -> (n: usize)
        ensures
            n == match self.semantic_results {
                Some(k) => if k == 0 {
                    1
                } else {
                    k
                },
                None => 10,
            },
            n >= 1,
    {
        let k = match self.semantic_results {
            Some(k) => k,
            None => 10,
        };
        if k < 1 {
            1
        } else {
            k
        }
    }

    /// Resolves an external command: the values of its environment variables
    /// in precedence order (the `GRIM_`-prefixed name first), then the
    /// configured command, then `default`.
    pub fn resolve_command(
        env: &[Option<String>],
        configured: &Option<ExternalCommand>,
        default: &str,
    ) -> (r: Result<(String, Vec<String>), CommandError>)
        ensures
            match r {
                Ok((p, a)) => chosen_command(env@, *configured, default@) == Some(
                    (p@, text::views(a@)),
                ),
                Err(_) => chosen_command(env@, *configured, default@) is None,
            },
    {
        let mut i: usize = 0;
        assert(env@.skip(0) =~= env@);
        while i < env.len()
            invariant
                i <= env@.len(),
                forall|j: int| 0 <= j < i ==> env@[j] is None,
                chosen_command(env@, *configured, default@) == chosen_command(
                    env@.skip(i as int),
                    *configured,
                    default@,
                ),
            decreases env@.len() - i,
        {
            proof {
                assert(env@.skip(i as int).drop_first() =~= env@.skip(i + 1));
                assert(env@.skip(i as int)[0] == env@[i as int]);
            }
            if let Some(v) = &env[i] {
                return ExternalCommand::Program(v.clone()).build();
            }
            i += 1;
        }
        assert(env@.skip(i as int) =~= Seq::<Option<String>>::empty());
        match configured {
            Some(c) => c.build(),
            None => ExternalCommand::Program(default.to_owned()).build(),
        }
    }
}

/// The program that opens files and URLs by default: `open` on macOS,
/// `xdg-open` elsewhere.
pub fn default_opener(macos: bool) -> (r: &'static str)
    ensures
        macos ==> r@ == "open"@,
        !macos ==> r@ == "xdg-open"@,
{
    if macos {
        "open"
    } else {
        "xdg-open"
    }
}

} // verus!
