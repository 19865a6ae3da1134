use vstd::prelude::*;
use crate::NamedFile;
use crate::views_of;

verus! {

/// Declares std::io::Cursor to Verus: the in-memory reader archives are
/// opened over.
#[verifier::external_type_specification]
#[verifier::external_body]
#[verifier::reject_recursive_types(T)]
pub struct ExCursor<T>(std::io::Cursor<T>);

/// Declares zip::read::ZipArchive to Verus: an opened zip archive, opaque
/// here beyond the entries it holds.
#[verifier::external_type_specification]
#[verifier::external_body]
#[verifier::reject_recursive_types(R)]
pub struct ExZipArchive<R>(zip::read::ZipArchive<R>);

/// What the central directory of a zip archive read from these bytes holds:
/// nothing when zip::ZipArchive::new rejects the bytes; otherwise one record
/// per entry, its stored name together with its decompressed bytes where the
/// entry can be read (and nothing where it cannot: a bad local header, an
/// unsupported compression method, truncated data).
pub uninterp spec fn zip_dir(data: Seq<u8>) -> Option<Seq<(Seq<char>, Option<Seq<u8>>)>>;

/// The entry records an opened archive holds: the same records `zip_dir`
/// gives for the bytes it was opened over.
pub uninterp spec fn archive_entries(z: zip::read::ZipArchive<std::io::Cursor<Vec<u8>>>) -> Seq<
    (Seq<char>, Option<Seq<u8>>),
>;

/// A zip archive fully read from bytes: its entries as (name, bytes) pairs
/// when the bytes open as an archive and every entry can be read, and nothing
/// otherwise.
pub open spec fn zip_parse(data: Seq<u8>) -> Option<Seq<(Seq<char>, Seq<u8>)>> {
    match zip_dir(data) {
        Option::None => Option::None,
        Option::Some(es) => {
            if forall|i: int| 0 <= i < es.len() ==> es[i].1 is Some {
                Option::Some(
                    es.map_values(|e: (Seq<char>, Option<Seq<u8>>)| (e.0, e.1->Some_0)),
                )
            } else {
                Option::None
            }
        },
    }
}

/// Relies on zip::ZipArchive::new: it parses the central directory of the
/// bytes; whether it succeeds, and what entries it finds, depend on the bytes
/// alone.
#[verifier::external_body]
fn zip_open(data: Vec<u8>) -> (r: Option<zip::read::ZipArchive<std::io::Cursor<Vec<u8>>>>)
    ensures
        r is Some <==> zip_dir(data@) is Some,
        r is Some ==> archive_entries(r->Some_0) == zip_dir(data@)->Some_0,
{
    zip::read::ZipArchive::new(std::io::Cursor::new(data)).ok()
}

/// Relies on zip::ZipArchive::len: the number of entries in the central
/// directory.
#[verifier::external_body]
fn zip_len(z: &zip::read::ZipArchive<std::io::Cursor<Vec<u8>>>) -> (r: usize)
    ensures
        r == archive_entries(*z).len(),
{
    z.len()
}

/// Relies on zip::ZipArchive::by_index and std::io::Read::read_to_end: hands
/// out the stored name and decompressed bytes of one entry; it fails exactly
/// on an entry that cannot be read, and leaves the archive's entries as they
/// were.
#[verifier::external_body]
fn zip_entry(z: &mut zip::read::ZipArchive<std::io::Cursor<Vec<u8>>>, i: usize) -> (r: Option<
    NamedFile,
>)
    requires
        i < archive_entries(*old(z)).len(),
    ensures
        archive_entries(*final(z)) == archive_entries(*old(z)),
        r is Some <==> archive_entries(*old(z))[i as int].1 is Some,
        r is Some ==> (r->Some_0)@ == (
            archive_entries(*old(z))[i as int].0,
            archive_entries(*old(z))[i as int].1->Some_0,
        ),
{
    let mut f = match z.by_index(i) {
        Ok(f) => f,
        Err(_) => {
            return None;
        },
    };
    let name = f.name().to_string();
    let mut data = Vec::new();
    match std::io::Read::read_to_end(&mut f, &mut data) {
        Ok(_) => Some(NamedFile { name, data }),
        Err(_) => None,
    }
}

/// Reads a whole zip archive held in memory: every entry's stored name and
/// decompressed bytes, in central-directory order. Returns nothing exactly
/// when the bytes do not open as an archive or some entry cannot be read.
#[verifier::loop_isolation(false)]
pub fn read_archive(data: Vec<u8>) -> (r: Option<Vec<NamedFile>>)
    ensures
        r is Some <==> zip_parse(data@) is Some,
        r is Some ==> views_of((r->Some_0)@) == zip_parse(data@)->Some_0,
{
    let ghost gdata = data@;
    let mut z = match zip_open(data) {
        Option::Some(z) => z,
        Option::None => {
            return Option::None;
        },
    };
    let ghost es = zip_dir(gdata)->Some_0;
    let n = zip_len(&z);
    let mut out: Vec<NamedFile> = Vec::new();
    let mut i: usize = 0;
    while i < n
        invariant
            zip_dir(gdata) == Option::Some(es),
            archive_entries(z) == es,
            n == es.len(),
            0 <= i <= n,
            out@.len() == i,
            forall|j: int| 0 <= j < i ==> es[j].1 is Some,
            forall|j: int| 0 <= j < i ==> (#[trigger] out@[j])@ == (es[j].0, es[j].1->Some_0),
        decreases n - i,
    {
        match zip_entry(&mut z, i) {
            Option::Some(f) => {
                out.push(f);
            },
            Option::None => {
                proof {
                    assert(zip_parse(gdata) is None) by {
                        if zip_parse(gdata) is Some {
                            assert(forall|j: int| 0 <= j < es.len() ==> es[j].1 is Some);
                            assert(es[i as int].1 is Some);
                        }
                    }
                }
                return Option::None;
            },
        }
        i += 1;
    }
    proof {
        assert(zip_parse(gdata) is Some);
        assert(views_of(out@) =~= zip_parse(gdata)->Some_0);
    }
    Option::Some(out)
}

} // verus!
