//! The text side of semantic search: validating the embedding profile,
//! building model inputs, previews and the progress line.
use vstd::prelude::*;

use crate::cli;
use crate::config::EmbeddingConfig;
use crate::text::{
    self, chars_of, collapse_whitespace, push_char, push_decimal, push_str, replace_str,
    str_contains, string_from_range, trim_str,
};

verus! {

/// Why an embedding profile is rejected.
#[derive(Clone, Debug, PartialEq)]
pub enum EmbeddingConfigError {
    EmptyRepo,
    EmptyRevision,
    ZeroMaxLength,
    ZeroBatchSize,
    QueryTemplate,
    DocumentTemplate,
    /// A model file path that is absolute or leaves the repository.
    UnsafePath(String),
}

impl EmbeddingConfigError {
    pub fn message(&self) -> (m: String)
        ensures
            m@ == match self {
                EmbeddingConfigError::EmptyRepo => "Embedding repo cannot be empty"@,
                EmbeddingConfigError::EmptyRevision => "Embedding revision cannot be empty"@,
                EmbeddingConfigError::ZeroMaxLength => "Embedding max_length must be positive"@,
                EmbeddingConfigError::ZeroBatchSize => "Embedding batch_size must be positive"@,
                EmbeddingConfigError::QueryTemplate => "Embedding query_template must contain {query}"@,
                EmbeddingConfigError::DocumentTemplate => "Embedding document_template must contain {text}"@,
                EmbeddingConfigError::UnsafePath(p) => "Embedding file paths must stay within the model repository: "@ + p@,
            },
    {
        match self {
            EmbeddingConfigError::EmptyRepo => "Embedding repo cannot be empty".to_owned(),
            EmbeddingConfigError::EmptyRevision => "Embedding revision cannot be empty".to_owned(),
            EmbeddingConfigError::ZeroMaxLength => "Embedding max_length must be positive".to_owned(),
            EmbeddingConfigError::ZeroBatchSize => "Embedding batch_size must be positive".to_owned(),
            EmbeddingConfigError::QueryTemplate => "Embedding query_template must contain {query}".to_owned(),
            EmbeddingConfigError::DocumentTemplate => "Embedding document_template must contain {text}".to_owned(),
            EmbeddingConfigError::UnsafePath(p) => {
                let mut m = "Embedding file paths must stay within the model repository: ".to_owned();
                push_str(&mut m, p.as_str());
                m
            },
        }
    }
}

/// Some `/`-separated segment of `s` is `..`.
pub open spec fn has_parent_segment(s: Seq<char>) -> bool
    decreases s.len(),
{
    if s.len() == 0 {
        false
    } else if s[0] == '/' {
        has_parent_segment(s.drop_first())
    } else {
        proof {
            cli::lemma_segment_len_bound(s);
        }
        let n = cli::segment_len(s);
        if n < 1 {
            false
        } else {
            s.take(n as int) == seq!['.', '.'] || has_parent_segment(s.skip(n as int))
        }
    }
}

/// A model file path that stays inside the model repository.
pub open spec fn safe_model_path(s: Seq<char>) -> bool {
    !(s.len() > 0 && s[0] == '/') && !has_parent_segment(s)
}

/// Every file a profile downloads: the model, the tokenizer files and the
/// external data files.
pub open spec fn profile_files(c: EmbeddingConfig) -> Seq<Seq<char>> {
    seq![
        c.model_file@,
        c.tokenizer_file@,
        c.config_file@,
        c.special_tokens_map_file@,
        c.tokenizer_config_file@,
    ] + text::views(c.external_files@)
}

/// The checks in order; the first that fails is the error.
pub open spec fn embedding_config_error(c: EmbeddingConfig) -> Option<EmbeddingConfigError> {
    if text::trim(c.repo@).len() == 0 {
        Some(EmbeddingConfigError::EmptyRepo)
    } else if text::trim(c.revision@).len() == 0 {
        Some(EmbeddingConfigError::EmptyRevision)
    } else if c.max_length == 0 {
        Some(EmbeddingConfigError::ZeroMaxLength)
    } else if c.batch_size == 0 {
        Some(EmbeddingConfigError::ZeroBatchSize)
    } else if !text::contains(c.query_template@, "{query}"@) {
        Some(EmbeddingConfigError::QueryTemplate)
    } else if !text::contains(c.document_template@, "{text}"@) {
        Some(EmbeddingConfigError::DocumentTemplate)
    } else {
        None
    }
}

pub(crate) fn check_path(v: &[char]) -> (ok: bool)
    ensures
        ok == safe_model_path(v@),
{
    let len = v.len();
    if len > 0 && v[0] == '/' {
        return false;
    }
    let mut i: usize = 0;
    assert(v@.skip(0) =~= v@);
    while i < len
        invariant
            len == v@.len(),
            i <= len,
            has_parent_segment(v@) == has_parent_segment(v@.skip(i as int)),
        decreases len - i,
    {
        let ghost rest = v@.skip(i as int);
        if v[i] == '/' {
            assert(rest.drop_first() =~= v@.skip(i + 1));
            i += 1;
        } else {
            let mut j = i;
            while j < len && v[j] != '/'
                invariant
                    len == v@.len(),
                    i <= j <= len,
                    forall|k: int| i <= k < j ==> #[trigger] v@[k] != '/',
                decreases len - j,
            {
                j += 1;
            }
            proof {
                assert forall|k: int| 0 <= k < j - i implies #[trigger] rest[k] != '/' by {
                    assert(rest[k] == v@[i + k]);
                }
                cli::lemma_segment_len(rest, j - i);
                assert(rest.skip(j - i) =~= v@.skip(j as int));
            }
            if j - i == 2 && v[i] == '.' && v[i + 1] == '.' {
                assert(rest.take(2) =~= seq!['.', '.']);
                return false;
            }
            proof {
                if j - i == 2 {
                    assert(rest.take(2)[0] != '.' || rest.take(2)[1] != '.');
                } else {
                    assert(rest.take(j - i).len() != 2);
                }
            }
            i = j;
        }
    }
    assert(v@.skip(len as int) =~= Seq::<char>::empty());
    true
}

/// Checks the embedding profile: non-blank repo and revision, positive
/// lengths, templates with their placeholders, and model file paths that
/// stay within the model repository.
pub fn validate_embedding_config(config: &EmbeddingConfig) -> (r: Result<(), EmbeddingConfigError>)
    ensures
        match r {
            Ok(()) => embedding_config_error(*config) is None && forall|i: int|
                0 <= i < profile_files(*config).len() ==> safe_model_path(
                    #[trigger] profile_files(*config)[i],
                ),
            Err(EmbeddingConfigError::UnsafePath(p)) => embedding_config_error(*config) is None
                && exists|i: int|
                0 <= i < profile_files(*config).len() && #[trigger] profile_files(*config)[i] == p@
                    && !safe_model_path(p@),
            Err(e) => embedding_config_error(*config) == Some(e),
        },
{
    if trim_str(config.repo.as_str()).as_str().is_empty() {
        return Err(EmbeddingConfigError::EmptyRepo);
    }
    if trim_str(config.revision.as_str()).as_str().is_empty() {
        return Err(EmbeddingConfigError::EmptyRevision);
    }
    if config.max_length == 0 {
        return Err(EmbeddingConfigError::ZeroMaxLength);
    }
    if config.batch_size == 0 {
        return Err(EmbeddingConfigError::ZeroBatchSize);
    }
    if !str_contains(config.query_template.as_str(), "{query}") {
        return Err(EmbeddingConfigError::QueryTemplate);
    }
    if !str_contains(config.document_template.as_str(), "{text}") {
        return Err(EmbeddingConfigError::DocumentTemplate);
    }
    let mut files: Vec<String> = Vec::new();
    files.push(config.model_file.clone());
    files.push(config.tokenizer_file.clone());
    files.push(config.config_file.clone());
    files.push(config.special_tokens_map_file.clone());
    files.push(config.tokenizer_config_file.clone());
    let mut k: usize = 0;
    while k < config.external_files.len()
        invariant
            k <= config.external_files@.len(),
            embedding_config_error(*config) is None,
            text::views(files@) == profile_files(*config).take(5 + k),
        decreases config.external_files@.len() - k,
    {
        let ghost prev = files@;
        let f = config.external_files[k].clone();
        files.push(f);
        assert(text::views(files@) =~= text::views(prev).push(f@));
        assert(text::views(files@) =~= profile_files(*config).take(5 + k + 1));
        k += 1;
    }
    assert(profile_files(*config).take(5 + k) =~= profile_files(*config));
    let mut i: usize = 0;
    while i < files.len()
        invariant
            i <= files@.len(),
            embedding_config_error(*config) is None,
            text::views(files@) == profile_files(*config),
            forall|j: int| 0 <= j < i ==> safe_model_path(#[trigger] profile_files(*config)[j]),
        decreases files@.len() - i,
    {
        let v = chars_of(files[i].as_str());
        assert(profile_files(*config)[i as int] == files@[i as int]@);
        if !check_path(&v) {
            return Err(EmbeddingConfigError::UnsafePath(files[i].clone()));
        }
        i += 1;
    }
    Ok(())
}

/// The model input for a query: the query template with `{query}` replaced.
pub fn query_input(config: &EmbeddingConfig, query: &str) -> (r: String)
    ensures
        r@ == text::replace_all(config.query_template@, "{query}"@, query@),
{
    proof {
        reveal_strlit("{query}");
    }
    replace_str(config.query_template.as_str(), "{query}", query)
}

/// The model input for a passage: the document template with `{title}`
/// replaced by the trimmed title, then `{text}` by the passage.
pub fn document_input(config: &EmbeddingConfig, title: &str, text: &str) -> (r: String)
    ensures
        r@ == text::replace_all(
            text::replace_all(config.document_template@, "{title}"@, text::trim(title@)),
            "{text}"@,
            text@,
        ),
{
    proof {
        reveal_strlit("{title}");
        reveal_strlit("{text}");
    }
    let t = trim_str(title);
    let first = replace_str(config.document_template.as_str(), "{title}", t.as_str());
    replace_str(first.as_str(), "{text}", text)
}

/// A one-line preview: whitespace collapsed, cut to `max_chars` characters
/// with an ellipsis when longer.
pub open spec fn preview(text: Seq<char>, max_chars: nat) -> Seq<char> {
    let compact = text::collapse_ws(text);
    if compact.len() <= max_chars {
        compact
    } else {
        compact.take(if max_chars >= 1 {
            max_chars - 1
        } else {
            0
        }).push('…')
    }
}

pub fn passage_preview(text: &str, max_chars: usize) -> (r: String)
    ensures
        r@ == preview(text@, max_chars as nat),
        r@.len() <= if max_chars == 0 {
            1
        } else {
            max_chars as int
        },
{
    let compact = collapse_whitespace(text);
    let v = chars_of(compact.as_str());
    if v.len() <= max_chars {
        return compact;
    }
    let keep = if max_chars >= 1 {
        max_chars - 1
    } else {
        0
    };
    let mut r = string_from_range(&v, 0, keep);
    push_char(&mut r, '…');
    assert(v@.subrange(0, keep as int) =~= v@.take(keep as int));
    r
}

/// `n` right-aligned in `width` columns, padded with `pad`.
pub open spec fn padded(n: nat, width: nat, pad: char) -> Seq<char> {
    let d = text::decimal(n);
    if d.len() >= width {
        d
    } else {
        Seq::new((width - d.len()) as nat, |i: int| pad) + d
    }
}

pub open spec fn repeated(c: char, n: nat) -> Seq<char> {
    Seq::new(n, |i: int| c)
}

fn push_repeated(s: &mut String, c: char, n: usize)
    ensures
        final(s)@ == old(s)@ + repeated(c, n as nat),
{
    let mut i: usize = 0;
    while i < n
        invariant
            i <= n,
            s@ == old(s)@ + repeated(c, i as nat),
        decreases n - i,
    {
        push_char(s, c);
        i += 1;
        assert(s@ =~= old(s)@ + repeated(c, i as nat));
    }
}

fn push_padded(s: &mut String, n: u64, width: usize, pad: char)
    ensures
        final(s)@ == old(s)@ + padded(n as nat, width as nat, pad),
{
    let d = text::decimal_string(n);
    let len = chars_of(d.as_str()).len();
    if len < width {
        push_repeated(s, pad, width - len);
    }
    push_str(s, d.as_str());
    assert(s@ =~= old(s)@ + padded(n as nat, width as nat, pad));
}

/// The saturating product of two sizes.
pub open spec fn sat_mul(a: nat, b: nat) -> nat {
    if a * b > usize::MAX {
        usize::MAX as nat
    } else {
        a * b
    }
}

/// `Embedding passages [====    ]  50% 5/10 01:05`: a bar of `width` cells,
/// the percentage, the counts and the elapsed minutes and seconds.
pub open spec fn progress_line(completed: nat, total: nat, seconds: nat, width: nat) -> Seq<char> {
    let total = if total == 0 {
        1
    } else {
        total
    };
    let completed = if completed > total {
        total
    } else {
        completed
    };
    let filled = sat_mul(completed, width) / total;
    let percent = sat_mul(completed, 100) / total;
    "Embedding passages ["@ + repeated('=', filled) + repeated(
        ' ',
        if width >= filled {
            (width - filled) as nat
        } else {
            0
        },
    ) + "] "@ + padded(percent, 3, ' ') + "% "@ + text::decimal(completed) + "/"@ + text::decimal(
        total,
    ) + " "@ + padded(seconds / 60, 2, '0') + ":"@ + padded(seconds % 60, 2, '0')
}

fn saturating_mul(a: usize, b: usize) -> (r: usize)
    ensures
        r == sat_mul(a as nat, b as nat),
{
    match a.checked_mul(b) {
        Some(p) => p,
        None => usize::MAX,
    }
}

/// The progress line shown while passages are embedded.
pub fn embedding_progress_line(completed: usize, total: usize, elapsed_seconds: u64, width: usize) -> (r:
    String)
    ensures
        r@ == progress_line(completed as nat, total as nat, elapsed_seconds as nat, width as nat),
{
    let total = if total == 0 {
        1
    } else {
        total
    };
    let completed = if completed > total {
        total
    } else {
        completed
    };
    let filled = saturating_mul(completed, width) / total;
    let percent = saturating_mul(completed, 100) / total;
    let mut r = "Embedding passages [".to_owned();
    push_repeated(&mut r, '=', filled);
    push_repeated(
        &mut r,
        ' ',
        if width >= filled {
            width - filled
        } else {
            0
        },
    );
    push_str(&mut r, "] ");
    push_padded(&mut r, percent as u64, 3, ' ');
    push_str(&mut r, "% ");
    push_decimal(&mut r, completed as u64);
    push_str(&mut r, "/");
    push_decimal(&mut r, total as u64);
    push_str(&mut r, " ");
    push_padded(&mut r, elapsed_seconds / 60, 2, '0');
    push_str(&mut r, ":");
    push_padded(&mut r, elapsed_seconds % 60, 2, '0');
    r
}

/// The files to fetch for the embedding model: those of the profile,
/// sorted, each once.
pub fn model_files(config: &EmbeddingConfig) -> (r: Vec<String>)
    ensures
        forall|i: int, j: int| 0 <= i < j < r@.len() ==> crate::docling::lex_lt(#[trigger] r@[i]@, #[trigger] r@[j]@),
        forall|x: Seq<char>| text::views(r@).contains(x) <==> profile_files(*config).contains(x),
{
    let mut files: Vec<String> = Vec::new();
    files.push(config.model_file.clone());
    files.push(config.tokenizer_file.clone());
    files.push(config.config_file.clone());
    files.push(config.special_tokens_map_file.clone());
    files.push(config.tokenizer_config_file.clone());
    let mut i: usize = 0;
    while i < config.external_files.len()
        invariant
            i <= config.external_files@.len(),
            files@.len() == 5 + i,
            forall|j: int| 0 <= j < 5 + i ==> #[trigger] text::views(files@)[j] == profile_files(*config)[j],
        decreases config.external_files@.len() - i,
    {
        let f = config.external_files[i].clone();
        assert(f@ == config.external_files@[i as int]@);
        let ghost before = files@;
        let ghost fv = f@;
        files.push(f);
        proof {
            assert(files@[5 + i]@ == fv);
            assert(text::views(files@)[5 + i] == fv);
            assert(profile_files(*config)[5 + i] == text::views(config.external_files@)[i as int]);
            assert forall|j: int| 0 <= j < 5 + i + 1 implies #[trigger] text::views(files@)[j]
                == profile_files(*config)[j] by {
                if j < 5 + i {
                    assert(files@[j] == before[j]);
                    assert(text::views(before)[j] == profile_files(*config)[j]);
                } else {
                    assert(j == 5 + i);
                }
            }
        }
        i += 1;
    }
    assert(text::views(files@) =~= profile_files(*config));
    let r = crate::docling::sorted_unique_text(&files);
    r
}

} // verus!
