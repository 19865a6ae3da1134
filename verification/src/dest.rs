use vstd::prelude::*;
use crate::archive::zip_parse;
use crate::extract::extract_outputs;
use crate::extract::file_outputs;
use crate::extract::zip_outputs;
use crate::names::basename_of;
use crate::names::is_zip_name;
use crate::pattern::regex_match;

verus! {

/// The content of a destination directory, file name to byte content, after
/// a list of writes is applied in order: a later write of a name overwrites
/// an earlier one.
pub open spec fn apply_writes(
    dest: Map<Seq<char>, Seq<u8>>,
    ws: Seq<(Seq<char>, Seq<u8>)>,
) -> Map<Seq<char>, Seq<u8>>
    decreases ws.len(),
{
    if ws.len() == 0 {
        dest
    } else {
        apply_writes(dest, ws.drop_last()).insert(ws.last().0, ws.last().1)
    }
}

/// Whether some write in `ws` writes the name `n`.
pub open spec fn writes_name(ws: Seq<(Seq<char>, Seq<u8>)>, n: Seq<char>) -> bool {
    exists|k: int| 0 <= k < ws.len() && ws[k].0 == n
}

/// The bytes the last write of name `n` carries (meaningful only where some
/// write carries that name).
pub open spec fn last_write(ws: Seq<(Seq<char>, Seq<u8>)>, n: Seq<char>) -> Seq<u8>
    decreases ws.len(),
{
    if ws.len() == 0 {
        Seq::<u8>::empty()
    } else if ws.last().0 == n {
        ws.last().1
    } else {
        last_write(ws.drop_last(), n)
    }
}

/// What one name holds after the writes: the bytes of its last write, and
/// what the destination held before for a name never written.
pub proof fn lemma_apply_writes_lookup(
    dest: Map<Seq<char>, Seq<u8>>,
    ws: Seq<(Seq<char>, Seq<u8>)>,
    n: Seq<char>,
)
    ensures
        apply_writes(dest, ws).contains_key(n) <==> (dest.contains_key(n) || writes_name(ws, n)),
        writes_name(ws, n) ==> apply_writes(dest, ws)[n] == last_write(ws, n),
        !writes_name(ws, n) && dest.contains_key(n) ==> apply_writes(dest, ws)[n] == dest[n],
    decreases ws.len(),
{
    if ws.len() == 0 {
        assert(!writes_name(ws, n));
    } else {
        let dl = ws.drop_last();
        lemma_apply_writes_lookup(dest, dl, n);
        if ws.last().0 == n {
            assert(writes_name(ws, n)) by {
                assert(ws[ws.len() - 1].0 == n);
            }
        }
        if writes_name(dl, n) {
            let k = choose|k: int| 0 <= k < dl.len() && dl[k].0 == n;
            assert(ws[k].0 == n);
        }
        if writes_name(ws, n) && ws.last().0 != n {
            let k = choose|k: int| 0 <= k < ws.len() && ws[k].0 == n;
            assert(k < ws.len() - 1);
            assert(dl[k].0 == n);
        }
    }
}

/// Where every write of a name carries the same bytes, the last one does too.
proof fn lemma_last_write_unique(ws: Seq<(Seq<char>, Seq<u8>)>, n: Seq<char>, v: Seq<u8>)
    requires
        writes_name(ws, n),
        forall|k: int| 0 <= k < ws.len() && (#[trigger] ws[k]).0 == n ==> ws[k].1 == v,
    ensures
        last_write(ws, n) == v,
    decreases ws.len(),
{
    if ws.last().0 == n {
        assert(ws[ws.len() - 1].1 == v);
    } else {
        let dl = ws.drop_last();
        let k = choose|k: int| 0 <= k < ws.len() && ws[k].0 == n;
        assert(k < ws.len() - 1);
        assert(dl[k].0 == n);
        assert(writes_name(dl, n));
        assert forall|k2: int| 0 <= k2 < dl.len() && (#[trigger] dl[k2]).0 == n implies dl[k2].1
            == v by {
            assert(ws[k2] == dl[k2]);
        }
        lemma_last_write_unique(dl, n, v);
    }
}

/// A write whose name no other write carries with different bytes ends up in
/// the destination exactly as written.
pub proof fn lemma_write_in_destination(
    dest: Map<Seq<char>, Seq<u8>>,
    ws: Seq<(Seq<char>, Seq<u8>)>,
    n: Seq<char>,
    v: Seq<u8>,
)
    requires
        ws.contains((n, v)),
        forall|k: int| 0 <= k < ws.len() && (#[trigger] ws[k]).0 == n ==> ws[k].1 == v,
    ensures
        apply_writes(dest, ws).contains_key(n),
        apply_writes(dest, ws)[n] == v,
{
    let k = choose|k: int| 0 <= k < ws.len() && ws[k] == (n, v);
    assert(ws[k].0 == n);
    assert(writes_name(ws, n));
    lemma_last_write_unique(ws, n, v);
    lemma_apply_writes_lookup(dest, ws, n);
}

/// Applying the writes of one extraction a second time, over the destination
/// the first application left, changes nothing: extraction is idempotent.
pub proof fn lemma_apply_writes_idempotent(
    dest: Map<Seq<char>, Seq<u8>>,
    ws: Seq<(Seq<char>, Seq<u8>)>,
)
    ensures
        apply_writes(apply_writes(dest, ws), ws) == apply_writes(dest, ws),
{
    let once = apply_writes(dest, ws);
    let twice = apply_writes(once, ws);
    assert forall|n: Seq<char>| #[trigger] twice.contains_key(n) == once.contains_key(n) by {
        lemma_apply_writes_lookup(dest, ws, n);
        lemma_apply_writes_lookup(once, ws, n);
    }
    assert forall|n: Seq<char>| once.contains_key(n) implies #[trigger] twice[n] == once[n] by {
        lemma_apply_writes_lookup(dest, ws, n);
        lemma_apply_writes_lookup(once, ws, n);
    }
    assert(twice =~= once);
}

/// Every plain source file whose name matches the log pattern is among the
/// writes of a successful extraction, with its own name and bytes.
pub proof fn lemma_matching_file_extracted(
    files: Seq<(Seq<char>, Seq<u8>)>,
    log: Seq<char>,
    arch: Seq<char>,
    i: int,
)
    requires
        extract_outputs(files, log, arch) is Ok,
        0 <= i < files.len(),
        regex_match(log, files[i].0),
    ensures
        extract_outputs(files, log, arch)->Ok_0.contains(files[i]),
    decreases files.len(),
{
    let ws = extract_outputs(files, log, arch)->Ok_0;
    let t = extract_outputs(files.drop_last(), log, arch)->Ok_0;
    let h = file_outputs(files.last().0, files.last().1, log, arch)->Ok_0;
    if i == files.len() - 1 {
        assert(files.last() == files[i]);
        assert(h[0] == files[i]);
        assert(ws[t.len() as int] == files[i]);
    } else {
        assert(files.drop_last()[i] == files[i]);
        lemma_matching_file_extracted(files.drop_last(), log, arch, i);
        let k = choose|k: int| 0 <= k < t.len() && t[k] == files[i];
        assert(ws[k] == files[i]);
    }
}

/// Every matching entry of a well-formed zip archive is among that archive's
/// contributions, flattened to its base name.
proof fn lemma_zip_outputs_contains(entries: Seq<(Seq<char>, Seq<u8>)>, arch: Seq<char>, j: int)
    requires
        0 <= j < entries.len(),
        regex_match(arch, basename_of(entries[j].0)),
    ensures
        zip_outputs(entries, arch).contains((basename_of(entries[j].0), entries[j].1)),
    decreases entries.len(),
{
    let ws = zip_outputs(entries, arch);
    let t = zip_outputs(entries.drop_last(), arch);
    if j == entries.len() - 1 {
        assert(entries.last() == entries[j]);
        assert(ws[t.len() as int] == (basename_of(entries[j].0), entries[j].1));
    } else {
        assert(entries.drop_last()[j] == entries[j]);
        lemma_zip_outputs_contains(entries.drop_last(), arch, j);
        let w = (basename_of(entries[j].0), entries[j].1);
        let k = choose|k: int| 0 <= k < t.len() && t[k] == w;
        assert(ws[k] == w);
    }
}

/// Every entry of a zip archive among the sources whose base name matches the
/// archive pattern is among the writes of a successful extraction, under its
/// base name, with its decompressed bytes. (The archive itself must not match
/// the log pattern: such a file is copied verbatim instead of being opened.)
pub proof fn lemma_matching_entry_extracted(
    files: Seq<(Seq<char>, Seq<u8>)>,
    log: Seq<char>,
    arch: Seq<char>,
    i: int,
    j: int,
)
    requires
        extract_outputs(files, log, arch) is Ok,
        0 <= i < files.len(),
        !regex_match(log, files[i].0),
        is_zip_name(files[i].0),
        zip_parse(files[i].1) is Some,
        0 <= j < zip_parse(files[i].1)->Some_0.len(),
        regex_match(arch, basename_of(zip_parse(files[i].1)->Some_0[j].0)),
    ensures
        extract_outputs(files, log, arch)->Ok_0.contains(
            (
                basename_of(zip_parse(files[i].1)->Some_0[j].0),
                zip_parse(files[i].1)->Some_0[j].1,
            ),
        ),
    decreases files.len(),
{
    let ws = extract_outputs(files, log, arch)->Ok_0;
    let t = extract_outputs(files.drop_last(), log, arch)->Ok_0;
    let es = zip_parse(files[i].1)->Some_0;
    let w = (basename_of(es[j].0), es[j].1);
    if i == files.len() - 1 {
        assert(files.last() == files[i]);
        lemma_zip_outputs_contains(es, arch, j);
        let h = zip_outputs(es, arch);
        let k = choose|k: int| 0 <= k < h.len() && h[k] == w;
        assert(ws[t.len() + k] == w);
    } else {
        assert(files.drop_last()[i] == files[i]);
        lemma_matching_entry_extracted(files.drop_last(), log, arch, i, j);
        let k = choose|k: int| 0 <= k < t.len() && t[k] == w;
        assert(ws[k] == w);
    }
}

/// After a successful extraction, a plain source file whose name matches the
/// log pattern stands in the destination under its own name with its own
/// bytes, provided no other write carries that name with different bytes.
pub proof fn lemma_matching_file_in_destination(
    files: Seq<(Seq<char>, Seq<u8>)>,
    log: Seq<char>,
    arch: Seq<char>,
    dest: Map<Seq<char>, Seq<u8>>,
    i: int,
)
    requires
        extract_outputs(files, log, arch) is Ok,
        0 <= i < files.len(),
        regex_match(log, files[i].0),
        forall|k: int|
            0 <= k < extract_outputs(files, log, arch)->Ok_0.len() && (#[trigger] extract_outputs(
                files,
                log,
                arch,
            )->Ok_0[k]).0 == files[i].0 ==> extract_outputs(files, log, arch)->Ok_0[k].1
                == files[i].1,
    ensures
        apply_writes(dest, extract_outputs(files, log, arch)->Ok_0).contains_key(files[i].0),
        apply_writes(dest, extract_outputs(files, log, arch)->Ok_0)[files[i].0] == files[i].1,
{
    lemma_matching_file_extracted(files, log, arch, i);
    assert((files[i].0, files[i].1) == files[i]);
    lemma_write_in_destination(
        dest,
        extract_outputs(files, log, arch)->Ok_0,
        files[i].0,
        files[i].1,
    );
}

/// After a successful extraction, a matching entry of a zip source file
/// stands in the destination under its base name with its decompressed
/// bytes, provided no other write carries that name with different bytes.
pub proof fn lemma_matching_entry_in_destination(
    files: Seq<(Seq<char>, Seq<u8>)>,
    log: Seq<char>,
    arch: Seq<char>,
    dest: Map<Seq<char>, Seq<u8>>,
    i: int,
    j: int,
)
    requires
        extract_outputs(files, log, arch) is Ok,
        0 <= i < files.len(),
        !regex_match(log, files[i].0),
        is_zip_name(files[i].0),
        zip_parse(files[i].1) is Some,
        0 <= j < zip_parse(files[i].1)->Some_0.len(),
        regex_match(arch, basename_of(zip_parse(files[i].1)->Some_0[j].0)),
        forall|k: int|
            0 <= k < extract_outputs(files, log, arch)->Ok_0.len() && (#[trigger] extract_outputs(
                files,
                log,
                arch,
            )->Ok_0[k]).0 == basename_of(zip_parse(files[i].1)->Some_0[j].0)
                ==> extract_outputs(files, log, arch)->Ok_0[k].1 == zip_parse(
                files[i].1,
            )->Some_0[j].1,
    ensures
        apply_writes(dest, extract_outputs(files, log, arch)->Ok_0).contains_key(
            basename_of(zip_parse(files[i].1)->Some_0[j].0),
        ),
        apply_writes(dest, extract_outputs(files, log, arch)->Ok_0)[basename_of(
            zip_parse(files[i].1)->Some_0[j].0,
        )] == zip_parse(files[i].1)->Some_0[j].1,
{
    lemma_matching_entry_extracted(files, log, arch, i, j);
    lemma_write_in_destination(
        dest,
        extract_outputs(files, log, arch)->Ok_0,
        basename_of(zip_parse(files[i].1)->Some_0[j].0),
        zip_parse(files[i].1)->Some_0[j].1,
    );
}

/// Every contribution of one archive comes from an entry whose base name
/// matches the archive pattern.
proof fn lemma_zip_outputs_provenance(
    entries: Seq<(Seq<char>, Seq<u8>)>,
    arch: Seq<char>,
    w: (Seq<char>, Seq<u8>),
)
    requires
        zip_outputs(entries, arch).contains(w),
    ensures
        exists|j: int|
            {
                &&& 0 <= j < entries.len()
                &&& regex_match(arch, basename_of((#[trigger] entries[j]).0))
                &&& w == (basename_of(entries[j].0), entries[j].1)
            },
    decreases entries.len(),
{
    let ws = zip_outputs(entries, arch);
    let t = zip_outputs(entries.drop_last(), arch);
    let k = choose|k: int| 0 <= k < ws.len() && ws[k] == w;
    if k < t.len() {
        assert(t[k] == w);
        lemma_zip_outputs_provenance(entries.drop_last(), arch, w);
        let j = choose|j: int|
            {
                &&& 0 <= j < entries.drop_last().len()
                &&& regex_match(arch, basename_of((#[trigger] entries.drop_last()[j]).0))
                &&& w == (basename_of(entries.drop_last()[j].0), entries.drop_last()[j].1)
            };
        assert(entries[j] == entries.drop_last()[j]);
    } else {
        let e = entries.last();
        assert(regex_match(arch, basename_of(e.0)));
        assert(w == (basename_of(e.0), e.1));
        assert(entries[entries.len() - 1] == e);
    }
}

/// Whether `w` is among what extraction may write: a plain source file whose
/// name matches the log pattern, taken as it is, or an entry of a zip source
/// file whose base name matches the archive pattern, flattened.
pub open spec fn write_has_source(
    files: Seq<(Seq<char>, Seq<u8>)>,
    log: Seq<char>,
    arch: Seq<char>,
    w: (Seq<char>, Seq<u8>),
) -> bool {
    ||| (exists|i: int|
        0 <= i < files.len() && regex_match(log, (#[trigger] files[i]).0) && w == files[i])
    ||| (exists|i: int, j: int|
        {
            &&& 0 <= i < files.len()
            &&& !regex_match(log, (#[trigger] files[i]).0)
            &&& is_zip_name(files[i].0)
            &&& zip_parse(files[i].1) is Some
            &&& 0 <= j < zip_parse(files[i].1)->Some_0.len()
            &&& regex_match(arch, basename_of((#[trigger] zip_parse(files[i].1)->Some_0[j]).0))
            &&& w == (
                basename_of(zip_parse(files[i].1)->Some_0[j].0),
                zip_parse(files[i].1)->Some_0[j].1,
            )
        })
}

/// Every write of a successful extraction has a source: a matching plain
/// file, or a matching entry of an archive among the sources. Nothing else
/// reaches the destination.
pub proof fn lemma_output_provenance(
    files: Seq<(Seq<char>, Seq<u8>)>,
    log: Seq<char>,
    arch: Seq<char>,
    w: (Seq<char>, Seq<u8>),
)
    requires
        extract_outputs(files, log, arch) is Ok,
        extract_outputs(files, log, arch)->Ok_0.contains(w),
    ensures
        write_has_source(files, log, arch, w),
    decreases files.len(),
{
    let ws = extract_outputs(files, log, arch)->Ok_0;
    let t = extract_outputs(files.drop_last(), log, arch)->Ok_0;
    let name = files.last().0;
    let data = files.last().1;
    let k = choose|k: int| 0 <= k < ws.len() && ws[k] == w;
    if k < t.len() {
        assert(t[k] == w);
        lemma_output_provenance(files.drop_last(), log, arch, w);
        if exists|i: int|
            0 <= i < files.drop_last().len() && regex_match(
                log,
                (#[trigger] files.drop_last()[i]).0,
            ) && w == files.drop_last()[i] {
            let i = choose|i: int|
                0 <= i < files.drop_last().len() && regex_match(
                    log,
                    (#[trigger] files.drop_last()[i]).0,
                ) && w == files.drop_last()[i];
            assert(files[i] == files.drop_last()[i]);
        } else {
            let (i, j) = choose|i: int, j: int|
                {
                    &&& 0 <= i < files.drop_last().len()
                    &&& !regex_match(log, (#[trigger] files.drop_last()[i]).0)
                    &&& is_zip_name(files.drop_last()[i].0)
                    &&& zip_parse(files.drop_last()[i].1) is Some
                    &&& 0 <= j < zip_parse(files.drop_last()[i].1)->Some_0.len()
                    &&& regex_match(
                        arch,
                        basename_of(
                            (#[trigger] zip_parse(files.drop_last()[i].1)->Some_0[j]).0,
                        ),
                    )
                    &&& w == (
                        basename_of(zip_parse(files.drop_last()[i].1)->Some_0[j].0),
                        zip_parse(files.drop_last()[i].1)->Some_0[j].1,
                    )
                };
            assert(files[i] == files.drop_last()[i]);
        }
    } else {
        if regex_match(log, name) {
            assert(w == files.last());
            assert(files[files.len() - 1] == files.last());
        } else if is_zip_name(name) {
            let es = zip_parse(data)->Some_0;
            let h = zip_outputs(es, arch);
            assert(h[k - t.len()] == w);
            lemma_zip_outputs_provenance(es, arch, w);
            assert(files[files.len() - 1] == files.last());
        } else {
            assert(false);
        }
    }
}

/// A name that no matching plain file carries and that no matching archive
/// entry flattens to stays absent from the destination.
pub proof fn lemma_unmatched_name_absent(
    files: Seq<(Seq<char>, Seq<u8>)>,
    log: Seq<char>,
    arch: Seq<char>,
    dest: Map<Seq<char>, Seq<u8>>,
    n: Seq<char>,
)
    requires
        extract_outputs(files, log, arch) is Ok,
        !dest.contains_key(n),
        forall|w: (Seq<char>, Seq<u8>)| #[trigger]
            write_has_source(files, log, arch, w) ==> w.0 != n,
    ensures
        !apply_writes(dest, extract_outputs(files, log, arch)->Ok_0).contains_key(n),
{
    let ws = extract_outputs(files, log, arch)->Ok_0;
    lemma_apply_writes_lookup(dest, ws, n);
    if writes_name(ws, n) {
        let k = choose|k: int| 0 <= k < ws.len() && ws[k].0 == n;
        assert(ws.contains(ws[k]));
        lemma_output_provenance(files, log, arch, ws[k]);
    }
}

} // verus!
