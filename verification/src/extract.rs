use vstd::prelude::*;
use crate::NamedFile;
use crate::views_of;
use crate::archive::read_archive;
use crate::archive::zip_parse;
use crate::names::basename;
use crate::names::basename_of;
use crate::names::is_zip_file_name;
use crate::names::is_zip_name;
use crate::pattern::pattern_valid;
use crate::pattern::regex_is_match;
use crate::pattern::regex_match;
use crate::pattern::regex_new;

verus! {

/// Which of the two configured patterns an error is about.
#[derive(Debug, Clone, Copy, PartialEq, Eq, Structural)]
pub enum PatternKind {
    Log,
    Archive,
}

/// Why an extraction failed. Every error aborts the whole extraction; there
/// is no per-file recovery.
#[derive(Debug)]
pub enum ExtractError {
    /// A configured pattern is not valid regular-expression syntax; carries
    /// which pattern was bad and its text.
    InvalidPattern { kind: PatternKind, pattern: String },
    /// An archive could not be opened or one of its entries could not be
    /// read; carries the file name of the offending archive.
    ArchiveError { name: String },
}

/// The archive-entry pattern in force: the configured one, or the log
/// pattern where none is configured.
pub open spec fn effective_archive_pattern(log: Seq<char>, archive: Option<Seq<char>>) -> Seq<
    char,
> {
    match archive {
        Option::Some(a) => a,
        Option::None => log,
    }
}

/// The view of an optional borrowed pattern text.
pub open spec fn opt_str_view(s: Option<&str>) -> Option<Seq<char>> {
    match s {
        Option::Some(x) => Option::Some(x@),
        Option::None => Option::None,
    }
}

/// What one archive contributes to the destination: each entry whose base
/// name matches the archive pattern, flattened to (base name, bytes), in
/// archive order.
pub open spec fn zip_outputs(entries: Seq<(Seq<char>, Seq<u8>)>, arch: Seq<char>) -> Seq<
    (Seq<char>, Seq<u8>),
>
    decreases entries.len(),
{
    if entries.len() == 0 {
        Seq::<(Seq<char>, Seq<u8>)>::empty()
    } else {
        let e = entries.last();
        zip_outputs(entries.drop_last(), arch) + (
        if regex_match(arch, basename_of(e.0)) {
            seq![(basename_of(e.0), e.1)]
        } else {
            Seq::<(Seq<char>, Seq<u8>)>::empty()
        })
    }
}

/// What one source file contributes to the destination: itself when its name
/// matches the log pattern; the matching entries of a fully readable archive
/// when it is a zip file; nothing otherwise. The error carries the name of a
/// zip file that is not fully readable.
pub open spec fn file_outputs(
    name: Seq<char>,
    data: Seq<u8>,
    log: Seq<char>,
    arch: Seq<char>,
) -> Result<Seq<(Seq<char>, Seq<u8>)>, Seq<char>> {
    if regex_match(log, name) {
        Result::Ok(seq![(name, data)])
    } else if is_zip_name(name) {
        match zip_parse(data) {
            Option::Some(es) => Result::Ok(zip_outputs(es, arch)),
            Option::None => Result::Err(name),
        }
    } else {
        Result::Ok(Seq::<(Seq<char>, Seq<u8>)>::empty())
    }
}

/// The writes extraction performs over a source directory, in source order:
/// what each file contributes, concatenated. The error carries the name of
/// the first unreadable archive, and nothing is said of the destination
/// beyond failure in that case.
pub open spec fn extract_outputs(
    files: Seq<(Seq<char>, Seq<u8>)>,
    log: Seq<char>,
    arch: Seq<char>,
) -> Result<Seq<(Seq<char>, Seq<u8>)>, Seq<char>>
    decreases files.len(),
{
    if files.len() == 0 {
        Result::Ok(Seq::<(Seq<char>, Seq<u8>)>::empty())
    } else {
        match extract_outputs(files.drop_last(), log, arch) {
            Result::Err(e) => Result::Err(e),
            Result::Ok(t) => match file_outputs(files.last().0, files.last().1, log, arch) {
                Result::Err(e) => Result::Err(e),
                Result::Ok(h) => Result::Ok(t + h),
            },
        }
    }
}

/// An error of one file, after an error-free prefix, is the error of the
/// whole extraction: the first error wins.
proof fn lemma_first_error(files: Seq<(Seq<char>, Seq<u8>)>, log: Seq<char>, arch: Seq<char>, i: int)
    requires
        0 <= i < files.len(),
        extract_outputs(files.take(i), log, arch) is Ok,
        file_outputs(files[i].0, files[i].1, log, arch) is Err,
    ensures
        extract_outputs(files, log, arch) == Result::<Seq<(Seq<char>, Seq<u8>)>, Seq<char>>::Err(
            file_outputs(files[i].0, files[i].1, log, arch)->Err_0,
        ),
    decreases files.len(),
{
    if i == files.len() - 1 {
        assert(files.drop_last() =~= files.take(i));
        assert(files.last() == files[i]);
    } else {
        assert(files.drop_last().take(i) =~= files.take(i));
        assert(files.drop_last()[i] == files[i]);
        lemma_first_error(files.drop_last(), log, arch, i);
    }
}

/// Extracts log files from an in-memory source directory.
///
/// `files` holds the plain files directly contained in the source directory,
/// each as its base name and bytes, in directory order. A file whose name
/// matches `log_pattern` is passed through as it is; otherwise a file whose
/// extension is exactly `zip` is opened as an archive and each entry whose
/// base name matches the archive pattern (`archive_pattern`, or `log_pattern`
/// when none is given) is passed through flattened to its base name; any
/// other file contributes nothing. The result lists the files to write into
/// the destination, in order; a later name collision is meant to overwrite an
/// earlier one.
///
/// Fails with `InvalidPattern` exactly when a configured pattern does not
/// compile, and with `ArchiveError` exactly when a zip file among the sources
/// cannot be fully read; the whole extraction is abandoned then.
#[verifier::loop_isolation(false)]
pub fn extract_logs(
    files: &Vec<NamedFile>,
    log_pattern: &str,
    archive_pattern: Option<&str>,
) -> (r: Result<Vec<NamedFile>, ExtractError>)
    ensures
        ({
            let fv = views_of(files@);
            let eff = effective_archive_pattern(log_pattern@, opt_str_view(archive_pattern));
            match r {
                Result::Ok(out) => {
                    &&& pattern_valid(log_pattern@)
                    &&& pattern_valid(eff)
                    &&& extract_outputs(fv, log_pattern@, eff) == Result::<
                        Seq<(Seq<char>, Seq<u8>)>,
                        Seq<char>,
                    >::Ok(views_of(out@))
                },
                Result::Err(e) => match e {
                    ExtractError::InvalidPattern { kind: PatternKind::Log, pattern } => {
                        &&& !pattern_valid(log_pattern@)
                        &&& pattern@ == log_pattern@
                    },
                    ExtractError::InvalidPattern { kind: PatternKind::Archive, pattern } => {
                        &&& pattern_valid(log_pattern@)
                        &&& !pattern_valid(eff)
                        &&& archive_pattern is Some
                        &&& pattern@ == eff
                    },
                    ExtractError::ArchiveError { name } => {
                        &&& pattern_valid(log_pattern@)
                        &&& pattern_valid(eff)
                        &&& extract_outputs(fv, log_pattern@, eff) == Result::<
                            Seq<(Seq<char>, Seq<u8>)>,
                            Seq<char>,
                        >::Err(name@)
                    },
                },
            }
        }),
{
    let log_re = match regex_new(log_pattern) {
        Option::Some(re) => re,
        Option::None => {
            return Result::Err(
                ExtractError::InvalidPattern {
                    kind: PatternKind::Log,
                    pattern: log_pattern.to_owned(),
                },
            );
        },
    };
    let arch_src: &str = match archive_pattern {
        Option::Some(a) => a,
        Option::None => log_pattern,
    };
    let arch_re = match regex_new(arch_src) {
        Option::Some(re) => re,
        Option::None => {
            return Result::Err(
                ExtractError::InvalidPattern {
                    kind: PatternKind::Archive,
                    pattern: arch_src.to_owned(),
                },
            );
        },
    };
    let ghost fv = views_of(files@);
    let ghost log = log_pattern@;
    let ghost eff = arch_src@;
    let mut out: Vec<NamedFile> = Vec::new();
    let mut idx: usize = 0;
    proof {
        assert(fv.take(0) =~= Seq::<(Seq<char>, Seq<u8>)>::empty());
        assert(views_of(out@) =~= Seq::<(Seq<char>, Seq<u8>)>::empty());
    }
    while idx < files.len()
        invariant
            0 <= idx <= files.len(),
            extract_outputs(fv.take(idx as int), log, eff) == Result::<
                Seq<(Seq<char>, Seq<u8>)>,
                Seq<char>,
            >::Ok(views_of(out@)),
        decreases files.len() - idx,
    {
        let f = &files[idx];
        let ghost prev = views_of(out@);
        proof {
            assert(fv[idx as int] == (f.name@, f.data@));
            assert(fv.take(idx as int + 1).drop_last() =~= fv.take(idx as int));
            assert(fv.take(idx as int + 1).last() == fv[idx as int]);
        }
        if regex_is_match(&log_re, f.name.as_str()) {
            out.push(NamedFile { name: f.name.clone(), data: f.data.clone() });
            proof {
                assert(views_of(out@) =~= prev + seq![(f.name@, f.data@)]);
            }
        } else if is_zip_file_name(f.name.as_str()) {
            match read_archive(f.data.clone()) {
                Option::None => {
                    proof {
                        lemma_first_error(fv, log, eff, idx as int);
                    }
                    return Result::Err(ExtractError::ArchiveError { name: f.name.clone() });
                },
                Option::Some(entries) => {
                    let ghost es = zip_parse(f.data@)->Some_0;
                    let m = entries.len();
                    let mut j: usize = 0;
                    proof {
                        assert(es.take(0) =~= Seq::<(Seq<char>, Seq<u8>)>::empty());
                        assert(prev + zip_outputs(es.take(0), eff) =~= prev);
                    }
                    while j < m
                        invariant
                            0 <= j <= m,
                            m == entries@.len(),
                            es == views_of(entries@),
                            views_of(out@) == prev + zip_outputs(es.take(j as int), eff),
                        decreases m - j,
                    {
                        let e = &entries[j];
                        let ghost before = views_of(out@);
                        proof {
                            assert(es[j as int] == (e.name@, e.data@));
                            assert(es.take(j as int + 1).drop_last() =~= es.take(j as int));
                            assert(es.take(j as int + 1).last() == es[j as int]);
                        }
                        let b = basename(e.name.as_str());
                        if regex_is_match(&arch_re, b.as_str()) {
                            out.push(NamedFile { name: b, data: e.data.clone() });
                            proof {
                                assert(views_of(out@) =~= before + seq![
                                    (basename_of(e.name@), e.data@),
                                ]);
                            }
                        } else {
                            proof {
                                assert(views_of(out@) =~= before + Seq::<
                                    (Seq<char>, Seq<u8>),
                                >::empty());
                            }
                        }
                        j += 1;
                    }
                    proof {
                        assert(es.take(m as int) =~= es);
                        assert(views_of(out@) =~= prev + zip_outputs(es, eff));
                    }
                },
            }
        } else {
            proof {
                assert(views_of(out@) =~= prev + Seq::<(Seq<char>, Seq<u8>)>::empty());
            }
        }
        idx += 1;
    }
    proof {
        assert(fv.take(files@.len() as int) =~= fv);
    }
    Result::Ok(out)
}

} // verus!
