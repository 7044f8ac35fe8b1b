//! What is read of an image, and what is taken out of it, in terms of its bytes and
//! entries.

use crate::area;
use crate::customize::OsFeatures;
use crate::customize_commands;
use crate::embed;
use crate::embed::EmbedView;
use crate::error::{LiveError, Refusal};
use crate::extract;
use crate::extract::PxeFile;
use crate::initrd::Initrd;
use crate::iso;
use crate::iso::{DirectoryRecord, EntryView, IsoFileView, IsoFs, RecordView};
use crate::iso_config;
use crate::iso_config::ConfigView;
use crate::kargs;
use crate::kargs::{AreasView, KargEmbedInfo, LocationView};
use crate::miniso;
use crate::miniso::{ListedFile, MinimalParts};
use crate::region;
use crate::region::{RegionView, WriteView};
use crate::stream;
use crate::text;
use vstd::prelude::*;
use vstd::string::*;
use vstd::utf8::*;

verus! {

/// The record at a path is that of the first entry for it.
proof fn lemma_record_at(entries: Seq<EntryView>, path: Seq<char>)
    ensures
        match iso::record_at(entries, path) {
            None => forall|k: int| 0 <= k < entries.len() ==> (#[trigger] entries[k]).path != path,
            Some(record) => exists|k: int|
                {
                    &&& 0 <= k < entries.len()
                    &&& (#[trigger] entries[k]).path == path
                    &&& entries[k].record == record
                    &&& forall|j: int| 0 <= j < k ==> (#[trigger] entries[j]).path != path
                },
        },
    decreases entries.len(),
{
    if entries.len() > 0 && entries.first().path != path {
        let rest = entries.drop_first();
        lemma_record_at(rest, path);
        match iso::record_at(rest, path) {
            None => {
                assert forall|k: int| 0 <= k < entries.len() implies (
                #[trigger] entries[k]).path != path by {
                    if k > 0 {
                        assert(rest[k - 1] == entries[k]);
                    }
                }
            },
            Some(record) => {
                let k = choose|k: int|
                    {
                        &&& 0 <= k < rest.len()
                        &&& (#[trigger] rest[k]).path == path
                        &&& rest[k].record == record
                        &&& forall|j: int| 0 <= j < k ==> (#[trigger] rest[j]).path != path
                    };
                assert(entries[k + 1] == rest[k]);
                assert forall|j: int| 0 <= j < k + 1 implies (#[trigger] entries[j]).path
                    != path by {
                    if j > 0 {
                        assert(rest[j - 1] == entries[j]);
                    }
                }
            },
        }
    } else if entries.len() > 0 {
        assert(entries[0].path == path);
    }
}

/// A file that is looked up by its path is the one of the first entry for that path,
/// with its name, offset and length; there is none if that entry is a directory, or
/// if there is no entry.
pub proof fn law_file_at(image: IsoFs, path: Seq<char>)
    ensures
        match iso::file_at(image@.entries, path) {
            Ok(file) => exists|k: int|
                {
                    &&& 0 <= k < image.entries@.len()
                    &&& (#[trigger] image.entries@[k]).path@ == path
                    &&& image.entries@[k].record matches DirectoryRecord::File(found) && {
                        &&& file.name == found.name@
                        &&& file.offset == found.offset
                        &&& file.length == found.length
                    }
                    &&& forall|j: int|
                        0 <= j < k ==> (#[trigger] image.entries@[j]).path@ != path
                },
            Err(e) => {
                ||| e == (Refusal::NotFound { path }) && forall|k: int|
                    0 <= k < image.entries@.len() ==> (#[trigger] image.entries@[k]).path@ != path
                ||| e == (Refusal::NotAFile { path }) && exists|k: int|
                    {
                        &&& 0 <= k < image.entries@.len()
                        &&& (#[trigger] image.entries@[k]).path@ == path
                        &&& image.entries@[k].record is Directory
                        &&& forall|j: int|
                            0 <= j < k ==> (#[trigger] image.entries@[j]).path@ != path
                    }
            },
        },
{
    lemma_first_entry(image, path);
}

/// A directory is there if the first entry for its path is one.
pub proof fn law_directory_at(image: IsoFs, path: Seq<char>)
    ensures
        iso::directory_at(image@.entries, path) is Ok <==> exists|k: int|
            {
                &&& 0 <= k < image.entries@.len()
                &&& (#[trigger] image.entries@[k]).path@ == path
                &&& image.entries@[k].record is Directory
                &&& forall|j: int| 0 <= j < k ==> (#[trigger] image.entries@[j]).path@ != path
            },
{
    lemma_first_entry(image, path);
    if exists|k: int|
        {
            &&& 0 <= k < image.entries@.len()
            &&& (#[trigger] image.entries@[k]).path@ == path
            &&& image.entries@[k].record is Directory
            &&& forall|j: int| 0 <= j < k ==> (#[trigger] image.entries@[j]).path@ != path
        } {
        let k = choose|k: int|
            {
                &&& 0 <= k < image.entries@.len()
                &&& (#[trigger] image.entries@[k]).path@ == path
                &&& image.entries@[k].record is Directory
                &&& forall|j: int| 0 <= j < k ==> (#[trigger] image.entries@[j]).path@ != path
            };
        assert(iso::record_at(image@.entries, path) is Some);
        let m = choose|m: int|
            {
                &&& 0 <= m < image.entries@.len()
                &&& (#[trigger] image.entries@[m]).path@ == path
                &&& image.entries@[m].record@ == iso::record_at(image@.entries, path)->0
                &&& forall|j: int| 0 <= j < m ==> (#[trigger] image.entries@[j]).path@ != path
            };
        assert(k == m);
    }
}

/// The record at a path, among the entries themselves.
proof fn lemma_first_entry(image: IsoFs, path: Seq<char>)
    ensures
        match iso::record_at(image@.entries, path) {
            None => forall|k: int|
                0 <= k < image.entries@.len() ==> (#[trigger] image.entries@[k]).path@ != path,
            Some(record) => exists|k: int|
                {
                    &&& 0 <= k < image.entries@.len()
                    &&& (#[trigger] image.entries@[k]).path@ == path
                    &&& image.entries@[k].record@ == record
                    &&& forall|j: int|
                        0 <= j < k ==> (#[trigger] image.entries@[j]).path@ != path
                },
        },
{
    let entries = image.entries@;
    let views = image@.entries;
    lemma_record_at(views, path);
    match iso::record_at(views, path) {
        None => {
            assert forall|k: int| 0 <= k < entries.len() implies (#[trigger] entries[k]).path@
                != path by {
                assert(views[k] == entries[k]@);
            }
        },
        Some(record) => {
            let k = choose|k: int|
                {
                    &&& 0 <= k < views.len()
                    &&& (#[trigger] views[k]).path == path
                    &&& views[k].record == record
                    &&& forall|j: int| 0 <= j < k ==> (#[trigger] views[j]).path != path
                };
            assert(views[k] == entries[k]@);
            assert(entries[k].path@ == path);
            assert forall|j: int| 0 <= j < k implies (#[trigger] entries[j]).path@ != path by {
                assert(views[j] == entries[j]@);
            }
        },
    }
}

/// The bytes of a file are those of the image from its offset on, as many as it is
/// long, or as there are.
pub proof fn law_file_bytes(image: Seq<u8>, file: IsoFileView)
    ensures
        ({
            let bytes = iso::file_bytes(image, file);
            &&& file.offset + file.length <= image.len() ==> bytes.len() == file.length
            &&& file.offset <= image.len() < file.offset + file.length ==> bytes.len()
                == image.len() - file.offset
            &&& file.offset > image.len() ==> bytes.len() == 0
            &&& forall|i: int|
                0 <= i < bytes.len() ==> #[trigger] bytes[i] == image[file.offset + i]
        }),
{
}

/// The embed area of an image is the extent of the first entry for
/// `IMAGES/IGNITION.IMG`, with the bytes that the image has there; and it is found
/// wherever that is a file whose extent lies in the image.
pub proof fn law_embed_area(image: IsoFs)
    ensures
        embed::embed_region(image@) matches Ok(area) ==> exists|k: int|
            {
                &&& 0 <= k < image.entries@.len()
                &&& (#[trigger] image.entries@[k]).path@ == "IMAGES/IGNITION.IMG"@
                &&& image.entries@[k].record matches DirectoryRecord::File(file) && {
                    &&& area.offset == file.offset
                    &&& area.length == file.length
                    &&& !area.modified
                    &&& area.contents.len() == file.length
                    &&& forall|i: int|
                        0 <= i < file.length ==> #[trigger] area.contents[i]
                            == image.file@[file.offset + i]
                }
                &&& forall|j: int|
                    0 <= j < k ==> (#[trigger] image.entries@[j]).path@ != "IMAGES/IGNITION.IMG"@
            },
        forall|k: int|
            {
                &&& 0 <= k < image.entries@.len()
                &&& (#[trigger] image.entries@[k]).path@ == "IMAGES/IGNITION.IMG"@
                &&& image.entries@[k].record matches DirectoryRecord::File(file) && file.offset
                    + file.length <= image.file@.len() <= 0x7fff_ffff_ffff_ffff
                &&& forall|j: int|
                    0 <= j < k ==> (#[trigger] image.entries@[j]).path@ != "IMAGES/IGNITION.IMG"@
            } ==> embed::embed_region(image@) is Ok,
{
    let path = "IMAGES/IGNITION.IMG"@;
    lemma_first_entry(image, path);
    assert forall|k: int|
        {
            &&& 0 <= k < image.entries@.len()
            &&& (#[trigger] image.entries@[k]).path@ == path
            &&& image.entries@[k].record matches DirectoryRecord::File(file) && file.offset
                + file.length <= image.file@.len() <= 0x7fff_ffff_ffff_ffff
            &&& forall|j: int| 0 <= j < k ==> (#[trigger] image.entries@[j]).path@ != path
        } implies embed::embed_region(image@) is Ok by {
        let m = choose|m: int|
            {
                &&& 0 <= m < image.entries@.len()
                &&& (#[trigger] image.entries@[m]).path@ == path
                &&& image.entries@[m].record@ == iso::record_at(image@.entries, path)->0
                &&& forall|j: int| 0 <= j < m ==> (#[trigger] image.entries@[j]).path@ != path
            };
        assert(k == m);
    }
}

/// An embed area that is not blank is decoded, all of it; what comes of that are its
/// files, or the reason why it cannot be read. A blank one is read without that.
pub proof fn law_area_decoded<D: Fn(&[u8]) -> Result<Initrd, String>>(
    image: IsoFs,
    decode: D,
    r: Result<EmbedView, Refusal>,
)
    requires
        embed::embed_read(image@, decode, r),
    ensures
        embed::embed_region(image@) matches Ok(area) ==> if forall|i: int|
            0 <= i < area.contents.len() ==> #[trigger] area.contents[i] == 0u8 {
            r matches Ok(found) && found.files == Map::<Seq<char>, Seq<u8>>::empty()
                && found.region.offset == area.offset && found.region.length == area.length
        } else {
            exists|bytes: &[u8], out: Result<Initrd, String>|
                {
                    &&& bytes@ == area.contents
                    &&& #[trigger] call_ensures(decode, (bytes,), out)
                    &&& match out {
                        Ok(initrd) => r matches Ok(found) && found.files == initrd@
                            && found.region.offset == area.offset && found.region.length
                            == area.length,
                        Err(reason) => r == Err::<EmbedView, Refusal>(
                            Refusal::DecodeInitrd { reason: reason@ },
                        ),
                    }
                }
        },
        embed::embed_region(image@) matches Err(e) ==> r == Err::<EmbedView, Refusal>(e),
{
}

/// The files of an embed area are encoded, all of them, and what comes of that begins
/// the area, with zeros behind it; if it is longer than the area, it is refused. An
/// area without files holds zeros alone. The area stays in its place.
pub proof fn law_area_encoded<E: Fn(&Initrd) -> Result<Vec<u8>, String>>(
    area: EmbedView,
    encode: E,
    r: Result<RegionView, Refusal>,
)
    requires
        embed::embed_encoded(area, encode, r),
    ensures
        r matches Ok(written) ==> {
            &&& written.offset == area.region.offset
            &&& written.length == area.region.length
            &&& written.modified == area.region.modified
            &&& written.contents.len() == area.region.length
        },
        if forall|path: Seq<char>| !#[trigger] area.files.contains_key(path) {
            r matches Ok(written) && forall|i: int|
                0 <= i < written.contents.len() ==> #[trigger] written.contents[i] == 0u8
        } else {
            exists|initrd: &Initrd, out: Result<Vec<u8>, String>|
                {
                    &&& initrd@ == area.files
                    &&& #[trigger] call_ensures(encode, (initrd,), out)
                    &&& match out {
                        Ok(bytes) => if bytes@.len() <= area.region.length {
                            r matches Ok(written) && forall|i: int|
                                0 <= i < written.contents.len() ==> #[trigger] written.contents[i]
                                    == if i < bytes@.len() {
                                    bytes@[i]
                                } else {
                                    0u8
                                }
                        } else {
                            r == Err::<RegionView, Refusal>(
                                Refusal::InitrdTooLarge {
                                    needed: bytes@.len() as usize,
                                    available: area.region.length,
                                },
                            )
                        },
                        Err(reason) => r == Err::<RegionView, Refusal>(
                            Refusal::EncodeInitrd { reason: reason@ },
                        ),
                    }
                }
        },
{
    if forall|path: Seq<char>| !#[trigger] area.files.contains_key(path) {
        assert(area.files =~= Map::<Seq<char>, Seq<u8>>::empty());
    } else {
        let path = choose|path: Seq<char>| #[trigger] area.files.contains_key(path);
        assert(area.files != Map::<Seq<char>, Seq<u8>>::empty());
        let (initrd, out) = choose|initrd: &Initrd, out: Result<Vec<u8>, String>|
            {
                &&& initrd@ == area.files
                &&& #[trigger] call_ensures(encode, (initrd,), out)
                &&& r == match out {
                    Ok(bytes) => embed::filled_region(area.region, bytes@),
                    Err(reason) => Err(Refusal::EncodeInitrd { reason: reason@ }),
                }
            };
        assert(call_ensures(encode, (initrd,), out));
    }
}

/// The last component of a path begins behind its last separator.
proof fn lemma_last_separator(s: Seq<char>)
    ensures
        ({
            let n = text::last_component_start(s);
            &&& 0 <= n <= s.len()
            &&& n == 0 || s[n - 1] == '/'
            &&& forall|i: int| n <= i < s.len() ==> #[trigger] s[i] != '/'
        }),
    decreases s.len(),
{
    if s.len() > 0 && s.last() != '/' {
        let before = s.drop_last();
        lemma_last_separator(before);
        let n = text::last_component_start(s);
        assert forall|i: int| n <= i < s.len() implies #[trigger] s[i] != '/' by {
            if i < before.len() {
                assert(before[i] == s[i]);
            }
        }
        if n > 0 {
            assert(before[n - 1] == s[n - 1]);
        }
    }
}

/// A path is one of an entry of a directory if it is that of the directory, a
/// separator, and a name without one.
proof fn lemma_child(dir: Seq<char>, path: Seq<char>)
    ensures
        extract::is_child(dir, path) <==> {
            &&& path.len() > dir.len()
            &&& path.take(dir.len() as int) == dir
            &&& path[dir.len() as int] == '/'
            &&& forall|i: int| dir.len() < i < path.len() ==> #[trigger] path[i] != '/'
        },
{
    lemma_last_separator(path);
    let n = dir.len() as int;
    let prefix = dir.push('/');
    if extract::is_child(dir, path) {
        assert(prefix == path.subrange(0, n + 1));
        assert(path.take(n) =~= dir) by {
            assert forall|i: int| 0 <= i < n implies path.take(n)[i] == dir[i] by {
                assert(prefix[i] == path.subrange(0, n + 1)[i]);
            }
        }
        assert(prefix[n] == path.subrange(0, n + 1)[n]);
    }
    if path.len() > n && path.take(n) == dir && path[n] == '/' && forall|i: int|
        n < i < path.len() ==> #[trigger] path[i] != '/' {
        assert(prefix =~= path.subrange(0, n + 1)) by {
            assert forall|i: int| 0 <= i < n implies prefix[i] == path.subrange(0, n + 1)[i] by {
                assert(path.take(n)[i] == dir[i]);
            }
        }
        let m = text::last_component_start(path);
        if m > n + 1 {
            assert(path[m - 1] == '/');
        }
    }
}

/// Where the files of a directory lie among the entries.
proof fn lemma_pxe_files(entries: Seq<EntryView>, dir: Seq<char>, base: Seq<char>) -> (from: Seq<
    int,
>)
    ensures
        ({
            let files = extract::pxe_files(entries, dir, base);
            &&& from.len() == files.len()
            &&& forall|a: int, b: int|
                0 <= a < b < from.len() ==> #[trigger] from[a] < #[trigger] from[b]
            &&& forall|a: int|
                0 <= a < from.len() ==> {
                    &&& 0 <= #[trigger] from[a] < entries.len()
                    &&& extract::is_child(dir, entries[from[a]].path)
                    &&& entries[from[a]].record == RecordView::File(files[a].file)
                    &&& files[a].name == base + text::lowercase(files[a].file.name)
                }
            &&& forall|k: int|
                0 <= k < entries.len() && (#[trigger] entries[k]).record is File
                    && extract::is_child(dir, entries[k].path) ==> from.contains(k)
        }),
    decreases entries.len(),
{
    if entries.len() == 0 {
        Seq::empty()
    } else {
        let rest = entries.drop_last();
        let last = entries.last();
        let n = entries.len() - 1;
        let before = lemma_pxe_files(rest, dir, base);
        let files = extract::pxe_files(entries, dir, base);
        let some = extract::pxe_files(rest, dir, base);
        let from = if last.record is File && extract::is_child(dir, last.path) {
            before.push(n)
        } else {
            before
        };
        assert forall|a: int| 0 <= a < from.len() implies {
            &&& 0 <= #[trigger] from[a] < entries.len()
            &&& extract::is_child(dir, entries[from[a]].path)
            &&& entries[from[a]].record == RecordView::File(files[a].file)
            &&& files[a].name == base + text::lowercase(files[a].file.name)
        } by {
            if a < before.len() {
                assert(from[a] == before[a]);
                assert(rest[before[a]] == entries[before[a]]);
                assert(files[a] == some[a]);
            }
        }
        assert forall|k: int|
            0 <= k < entries.len() && (#[trigger] entries[k]).record is File && extract::is_child(
                dir,
                entries[k].path,
            ) implies from.contains(k) by {
            if k < n {
                assert(rest[k] == entries[k]);
                assert(before.contains(k));
                let a = choose|a: int| 0 <= a < before.len() && before[a] == k;
                assert(from[a] == k);
            } else {
                assert(from[before.len() as int] == k);
            }
        }
        from
    }
}

/// The files that are extracted for a network boot are those that the image has
/// directly below `IMAGES/PXEBOOT`, all of them, in the order of the entries, each
/// with the offset and the length of its entry and under a name that is made of the
/// file name of the image without its extension, a dash, and its own name in lower
/// case.
///
/// The result gives the entry of each file.
pub proof fn law_boot_files(image: IsoFs, input: Seq<char>, files: Seq<PxeFile>) -> (from: Seq<int>)
    requires
        extract::pxe_views(files) == extract::pxe_files(
            image@.entries,
            extract::ISO_PXEBOOT_DIR@,
            extract::pxe_base(input),
        ),
    ensures
        from.len() == files.len(),
        forall|a: int, b: int| 0 <= a < b < from.len() ==> #[trigger] from[a] < #[trigger] from[b],
        forall|a: int|
            0 <= a < files.len() ==> {
                &&& 0 <= from[a] < image.entries@.len()
                &&& image.entries@[from[a]].record matches DirectoryRecord::File(file) && {
                    &&& (#[trigger] files[a]).file.offset == file.offset
                    &&& files[a].file.length == file.length
                    &&& files[a].file.name@ == file.name@
                    &&& files[a].name@ == text::file_stem(text::file_name(input)->0) + "-"@
                        + text::lowercase(file.name@)
                }
            },
        forall|k: int|
            0 <= k < image.entries@.len() ==> (from.contains(k) <==> {
                &&& (#[trigger] image.entries@[k]).record is File
                &&& image.entries@[k].path@.len() > "IMAGES/PXEBOOT"@.len()
                &&& image.entries@[k].path@.take("IMAGES/PXEBOOT"@.len() as int)
                    == "IMAGES/PXEBOOT"@
                &&& image.entries@[k].path@["IMAGES/PXEBOOT"@.len() as int] == '/'
                &&& forall|i: int|
                    "IMAGES/PXEBOOT"@.len() < i < image.entries@[k].path@.len()
                        ==> #[trigger] image.entries@[k].path@[i] != '/'
            }),
{
    let entries = image.entries@;
    let views = image@.entries;
    let dir = "IMAGES/PXEBOOT"@;
    let base = extract::pxe_base(input);
    let from = lemma_pxe_files(views, dir, base);
    let found = extract::pxe_views(files);
    assert(found.len() == files.len());
    assert forall|a: int| 0 <= a < files.len() implies {
        &&& 0 <= from[a] < entries.len()
        &&& entries[from[a]].record matches DirectoryRecord::File(file) && {
            &&& (#[trigger] files[a]).file.offset == file.offset
            &&& files[a].file.length == file.length
            &&& files[a].file.name@ == file.name@
            &&& files[a].name@ == text::file_stem(text::file_name(input)->0) + "-"@
                + text::lowercase(file.name@)
        }
    } by {
        assert(found[a] == files[a]@);
        assert(views[from[a]] == entries[from[a]]@);
    }
    assert forall|k: int| 0 <= k < entries.len() implies (from.contains(k) <==> {
        &&& (#[trigger] entries[k]).record is File
        &&& entries[k].path@.len() > dir.len()
        &&& entries[k].path@.take(dir.len() as int) == dir
        &&& entries[k].path@[dir.len() as int] == '/'
        &&& forall|i: int|
            dir.len() < i < entries[k].path@.len() ==> #[trigger] entries[k].path@[i] != '/'
    }) by {
        assert(views[k] == entries[k]@);
        lemma_child(dir, entries[k].path@);
        if from.contains(k) {
            let a = choose|a: int| 0 <= a < from.len() && from[a] == k;
            assert(0 <= from[a] < views.len());
        }
    }
    from
}

/// What a minimal image is extracted from: the packed image is the file of the first
/// entry for `COREOS/MINISO.DAT`, and the root file system, if it is asked for, that
/// of the first entry for `IMAGES/PXEBOOT/ROOTFS.IMG`, each with the offset and the
/// length of its entry; it is missing only where that is no file.
pub proof fn law_minimal_parts(image: IsoFs, with_rootfs: bool, parts: MinimalParts)
    requires
        parts@ == miniso::minimal_parts(image@, with_rootfs),
    ensures
        !with_rootfs ==> parts.rootfs is None,
        with_rootfs ==> parts.rootfs is Some,
        parts.rootfs matches Some(Ok(rootfs)) ==> exists|k: int|
            {
                &&& 0 <= k < image.entries@.len()
                &&& (#[trigger] image.entries@[k]).path@ == "IMAGES/PXEBOOT/ROOTFS.IMG"@
                &&& image.entries@[k].record matches DirectoryRecord::File(file) && {
                    &&& rootfs.offset == file.offset
                    &&& rootfs.length == file.length
                }
                &&& forall|j: int|
                    0 <= j < k ==> (#[trigger] image.entries@[j]).path@
                        != "IMAGES/PXEBOOT/ROOTFS.IMG"@
            },
        parts.rootfs matches Some(Err(_)) ==> forall|k: int|
            {
                &&& 0 <= k < image.entries@.len()
                &&& (#[trigger] image.entries@[k]).path@ == "IMAGES/PXEBOOT/ROOTFS.IMG"@
                &&& forall|j: int|
                    0 <= j < k ==> (#[trigger] image.entries@[j]).path@
                        != "IMAGES/PXEBOOT/ROOTFS.IMG"@
            } ==> image.entries@[k].record is Directory,
        parts.data matches Ok(data) ==> exists|k: int|
            {
                &&& 0 <= k < image.entries@.len()
                &&& (#[trigger] image.entries@[k]).path@ == "COREOS/MINISO.DAT"@
                &&& image.entries@[k].record matches DirectoryRecord::File(file) && {
                    &&& data.offset == file.offset
                    &&& data.length == file.length
                }
                &&& forall|j: int|
                    0 <= j < k ==> (#[trigger] image.entries@[j]).path@ != "COREOS/MINISO.DAT"@
            },
        parts.data matches Err(_) ==> forall|k: int|
            {
                &&& 0 <= k < image.entries@.len()
                &&& (#[trigger] image.entries@[k]).path@ == "COREOS/MINISO.DAT"@
                &&& forall|j: int|
                    0 <= j < k ==> (#[trigger] image.entries@[j]).path@ != "COREOS/MINISO.DAT"@
            } ==> image.entries@[k].record is Directory,
{
    law_file_at(image, "IMAGES/PXEBOOT/ROOTFS.IMG"@);
    law_file_at(image, "COREOS/MINISO.DAT"@);
}

/// What is listed of an image are the paths of all its entries, in their order.
pub proof fn law_inspected(image: IsoFs, paths: Seq<String>)
    requires
        text::texts(paths) == extract::paths_of(image@.entries),
    ensures
        paths.len() == image.entries@.len(),
        forall|k: int|
            0 <= k < paths.len() ==> (#[trigger] paths[k])@ == image.entries@[k].path@,
{
    assert(text::texts(paths).len() == paths.len());
    assert(extract::paths_of(image@.entries).len() == image.entries@.len());
    assert forall|k: int| 0 <= k < paths.len() implies (#[trigger] paths[k])@
        == image.entries@[k].path@ by {
        assert(text::texts(paths)[k] == paths[k]@);
        assert(image@.entries[k] == image.entries@[k]@);
    }
}

/// Whether an entry is one of a file for a path.
spec fn is_file(entries: Seq<EntryView>, path: Seq<char>, k: int) -> bool {
    0 <= k < entries.len() && entries[k].path == path && entries[k].record is File
}

/// A file is known by a path if the last entry of a file for that path is its own.
proof fn lemma_files_of(entries: Seq<EntryView>, path: Seq<char>) -> (k: int)
    ensures
        miniso::files_of(entries).contains_key(path) ==> {
            &&& is_file(entries, path, k)
            &&& entries[k].record == RecordView::File(miniso::files_of(entries)[path])
            &&& forall|j: int| j > k ==> !#[trigger] is_file(entries, path, j)
        },
        !miniso::files_of(entries).contains_key(path) ==> forall|j: int|
            !#[trigger] is_file(entries, path, j),
    decreases entries.len(),
{
    if entries.len() == 0 {
        0
    } else {
        let before = entries.drop_last();
        let n = entries.len() - 1;
        let k = lemma_files_of(before, path);
        assert forall|j: int| j < n implies #[trigger] is_file(entries, path, j) == is_file(
            before,
            path,
            j,
        ) by {
            if 0 <= j {
                assert(before[j] == entries[j]);
            }
        }
        assert(entries[n] == entries.last());
        if is_file(entries, path, n) {
            n
        } else {
            if miniso::files_of(entries).contains_key(path) {
                assert(is_file(before, path, k));
                assert(before[k] == entries[k]);
            }
            k
        }
    }
}

/// Each file of an image that is collected for packing has the path of an entry, with
/// the offset, the length and the name of the last entry of a file for that path; and
/// no two have the same path.
///
/// The result is that entry.
pub proof fn law_collected_file(image: IsoFs, listed: Seq<ListedFile>, a: int, b: int) -> (k: int)
    requires
        miniso::lists(listed, miniso::files_of(image@.entries)),
        0 <= a < listed.len(),
        0 <= b < listed.len(),
    ensures
        a != b ==> listed[a].path@ != listed[b].path@,
        0 <= k < image.entries@.len(),
        image.entries@[k].path@ == listed[a].path@,
        image.entries@[k].record matches DirectoryRecord::File(file) && {
            &&& listed[a].file.offset == file.offset
            &&& listed[a].file.length == file.length
            &&& listed[a].file.name@ == file.name@
        },
        forall|j: int|
            k < j < image.entries@.len() ==> !((#[trigger] image.entries@[j]).path@
                == listed[a].path@ && image.entries@[j].record is File),
{
    let entries = image.entries@;
    let views = image@.entries;
    let path = listed[a].path@;
    let k = lemma_files_of(views, path);
    assert(miniso::files_of(views).contains_key(path));
    assert(is_file(views, path, k));
    assert(views[k] == entries[k]@);
    assert forall|j: int| k < j < entries.len() implies !((#[trigger] entries[j]).path@ == path
        && entries[j].record is File) by {
        assert(views[j] == entries[j]@);
        assert(!is_file(views, path, j));
    }
    if a < b {
        assert(listed[a].path@ != listed[b].path@);
    } else if b < a {
        assert(listed[b].path@ != listed[a].path@);
    }
    k
}

/// Each file of an image is collected for packing, by its path.
pub proof fn law_file_collected(image: IsoFs, listed: Seq<ListedFile>, k: int) -> (a: int)
    requires
        miniso::lists(listed, miniso::files_of(image@.entries)),
        0 <= k < image.entries@.len(),
        image.entries@[k].record is File,
    ensures
        0 <= a < listed.len(),
        listed[a].path@ == image.entries@[k].path@,
{
    let views = image@.entries;
    let path = image.entries@[k].path@;
    assert(views[k] == image.entries@[k]@);
    let m = lemma_files_of(views, path);
    assert(is_file(views, path, k));
    assert(miniso::files_of(views).contains_key(path));
    choose|a: int| 0 <= a < listed.len() && (#[trigger] listed[a]).path@ == path
}

/// A packed minimal image is written to the beginning of the file of the first entry
/// for `COREOS/MINISO.DAT`, unchanged, wherever there is such a file and it is long
/// enough.
pub proof fn law_packed_write(image: IsoFs, data: Seq<u8>, r: Result<WriteView, Refusal>)
    requires
        r == miniso::miniso_write(image@, data),
    ensures
        r matches Ok(write) ==> write.data == data && exists|k: int|
            {
                &&& 0 <= k < image.entries@.len()
                &&& (#[trigger] image.entries@[k]).path@ == "COREOS/MINISO.DAT"@
                &&& image.entries@[k].record matches DirectoryRecord::File(file) && {
                    &&& write.offset == file.offset
                    &&& data.len() <= file.length
                }
                &&& forall|j: int|
                    0 <= j < k ==> (#[trigger] image.entries@[j]).path@ != "COREOS/MINISO.DAT"@
            },
        forall|k: int|
            {
                &&& 0 <= k < image.entries@.len()
                &&& (#[trigger] image.entries@[k]).path@ == "COREOS/MINISO.DAT"@
                &&& image.entries@[k].record matches DirectoryRecord::File(file) && data.len()
                    <= file.length
                &&& forall|j: int|
                    0 <= j < k ==> (#[trigger] image.entries@[j]).path@ != "COREOS/MINISO.DAT"@
            } ==> r is Ok,
{
    let path = "COREOS/MINISO.DAT"@;
    lemma_first_entry(image, path);
    assert forall|k: int|
        {
            &&& 0 <= k < image.entries@.len()
            &&& (#[trigger] image.entries@[k]).path@ == path
            &&& image.entries@[k].record matches DirectoryRecord::File(file) && data.len()
                <= file.length
            &&& forall|j: int| 0 <= j < k ==> (#[trigger] image.entries@[j]).path@ != path
        } implies r is Ok by {
        let m = choose|m: int|
            {
                &&& 0 <= m < image.entries@.len()
                &&& (#[trigger] image.entries@[m]).path@ == path
                &&& image.entries@[m].record@ == iso::record_at(image@.entries, path)->0
                &&& forall|j: int| 0 <= j < m ==> (#[trigger] image.entries@[j]).path@ != path
            };
        assert(k == m);
    }
}

/// The regions at a list of locations, one by one.
proof fn lemma_located_one_by_one(
    image: iso::IsoView,
    files: Seq<LocationView>,
    size: usize,
    list: Seq<RegionView>,
)
    requires
        kargs::located_areas(image, files, size) == Ok::<Seq<RegionView>, Refusal>(list),
    ensures
        list.len() == files.len(),
        forall|i: int|
            0 <= i < files.len() ==> {
                &&& iso::file_at(
                    image.entries,
                    text::uppercase((#[trigger] files[i]).path),
                ) matches Ok(file) && list[i].offset == file.offset + files[i].offset
                &&& list[i] == region::region_at(image.file, list[i].offset, size)
                &&& region::readable(image.file, list[i].offset as int, size as int)
            },
    decreases files.len(),
{
    if files.len() > 0 {
        let before = kargs::located_areas(image, files.drop_last(), size)->Ok_0;
        lemma_located_one_by_one(image, files.drop_last(), size, before);
        assert forall|i: int| 0 <= i < files.len() implies {
            &&& iso::file_at(
                image.entries,
                text::uppercase((#[trigger] files[i]).path),
            ) matches Ok(file) && list[i].offset == file.offset + files[i].offset
            &&& list[i] == region::region_at(image.file, list[i].offset, size)
            &&& region::readable(image.file, list[i].offset as int, size as int)
        } by {
            if i < files.len() - 1 {
                assert(files.drop_last()[i] == files[i]);
                assert(list[i] == before[i]);
            }
        }
    }
}

/// Areas that can be built all hold the kargs that they are said to.
proof fn lemma_no_first_disagreement(regions: Seq<RegionView>, args: Seq<char>)
    ensures
        kargs::first_disagreement(regions, args) is None <==> forall|i: int|
            0 <= i < regions.len() ==> area::area_kargs((#[trigger] regions[i]).contents) == Some(
                args,
            ),
    decreases regions.len(),
{
    if regions.len() > 0 {
        let rest = regions.drop_first();
        lemma_no_first_disagreement(rest, args);
        if kargs::first_disagreement(regions, args) is None {
            assert forall|i: int| 0 <= i < regions.len() implies area::area_kargs(
                (#[trigger] regions[i]).contents,
            ) == Some(args) by {
                if i > 0 {
                    assert(regions[i] == rest[i - 1]);
                }
            }
        }
        if forall|i: int|
            0 <= i < regions.len() ==> area::area_kargs((#[trigger] regions[i]).contents) == Some(
                args,
            ) {
            assert(regions[0] == regions.first());
            assert forall|i: int| 0 <= i < rest.len() implies area::area_kargs(
                (#[trigger] rest[i]).contents,
            ) == Some(args) by {
                assert(rest[i] == regions[i + 1]);
            }
        }
    }
}

/// Areas are built of regions that all hold the same kargs, and of no others.
proof fn lemma_built(
    length: usize,
    default: Seq<char>,
    regions: Seq<RegionView>,
    same: Seq<char>,
)
    ensures
        kargs::built(length, default, regions) matches Ok(areas) ==> {
            &&& regions.len() > 0
            &&& areas.length == length
            &&& areas.default == default
            &&& areas.regions == regions
            &&& forall|i: int|
                0 <= i < regions.len() ==> area::area_kargs((#[trigger] regions[i]).contents)
                    == Some(areas.args)
        },
        regions.len() > 0 && (forall|i: int|
            0 <= i < regions.len() ==> area::area_kargs((#[trigger] regions[i]).contents) == Some(
                same,
            )) ==> kargs::built(length, default, regions) is Ok,
{
    if regions.len() > 0 && area::area_kargs(regions[0].contents) is Some {
        let args = area::area_kargs(regions[0].contents)->0;
        let rest = regions.drop_first();
        lemma_no_first_disagreement(rest, args);
        if kargs::first_disagreement(rest, args) is None {
            assert forall|i: int| 0 <= i < regions.len() implies area::area_kargs(
                (#[trigger] regions[i]).contents,
            ) == Some(args) by {
                if i > 0 {
                    assert(regions[i] == rest[i - 1]);
                }
            }
        }
        if forall|i: int|
            0 <= i < regions.len() ==> area::area_kargs((#[trigger] regions[i]).contents) == Some(
                same,
            ) {
            assert forall|i: int| 0 <= i < rest.len() implies area::area_kargs(
                (#[trigger] rest[i]).contents,
            ) == Some(args) by {
                assert(rest[i] == regions[i + 1]);
            }
        }
    }
}

/// Regions that are put in order are the same regions, by offset.
proof fn lemma_in_order(list: Seq<RegionView>)
    ensures
        ({
            let sorted = list.sort_by(region::region_order());
            &&& sorted.len() == list.len()
            &&& forall|x: RegionView| #[trigger] sorted.contains(x) <==> list.contains(x)
            &&& forall|a: int, b: int|
                0 <= a < b < sorted.len() ==> (#[trigger] sorted[a]).offset <= (
                #[trigger] sorted[b]).offset
        }),
{
    broadcast use vstd::seq_lib::group_to_multiset_ensures;

    let leq = region::region_order();
    let sorted = list.sort_by(leq);
    stream::lemma_region_order();
    list.lemma_sort_by_ensures(leq);
    assert(sorted.len() == list.len()) by {
        assert(sorted.to_multiset().len() == sorted.len());
        assert(list.to_multiset().len() == list.len());
    }
    assert forall|x: RegionView| #[trigger] sorted.contains(x) <==> list.contains(x) by {
        assert(sorted.contains(x) <==> sorted.to_multiset().count(x) > 0);
        assert(list.contains(x) <==> list.to_multiset().count(x) > 0);
    }
    assert forall|a: int, b: int| 0 <= a < b < sorted.len() implies (#[trigger] sorted[a]).offset
        <= (#[trigger] sorted[b]).offset by {
        assert(leq(sorted[a], sorted[b]));
    }
}

/// The karg embed areas that a description announces: one for each location that it
/// lists, as far behind the beginning of the file at that path, in upper case, as the
/// location says, each of the size that it gives and with the bytes that the image
/// has there, in the order of their offsets; and all of them hold the same kargs. The
/// kargs that the image was built with are those of the description.
pub proof fn law_described_areas(image: IsoFs, info: KargEmbedInfo, areas: AreasView)
    requires
        kargs::described_areas(image@, info@) == Ok::<AreasView, Refusal>(areas),
    ensures
        info.size <= 2048,
        encode_utf8(info.default@).len() <= info.size,
        areas.length == info.size,
        areas.default == info.default@,
        areas.regions.len() == info.files@.len() > 0,
        forall|m: int|
            0 <= m < areas.regions.len() ==> exists|i: int|
                0 <= i < info.files@.len() && (iso::file_at(
                    image@.entries,
                    text::uppercase((#[trigger] info.files@[i]).path@),
                ) matches Ok(file) && (#[trigger] areas.regions[m]).offset == file.offset
                    + info.files@[i].offset),
        forall|m: int|
            0 <= m < areas.regions.len() ==> {
                &&& (#[trigger] areas.regions[m]).length == info.size
                &&& !areas.regions[m].modified
                &&& areas.regions[m].contents.len() == info.size
                &&& info.size > 0 ==> areas.regions[m].offset + info.size <= image.file@.len()
                &&& forall|j: int|
                    0 <= j < info.size ==> #[trigger] areas.regions[m].contents[j]
                        == image.file@[areas.regions[m].offset + j]
                &&& area::area_kargs(areas.regions[m].contents) == Some(areas.args)
            },
        forall|a: int, b: int|
            0 <= a < b < areas.regions.len() ==> (#[trigger] areas.regions[a]).offset <= (
            #[trigger] areas.regions[b]).offset,
{
    let files = kargs::location_views(info.files@);
    let list = kargs::located_areas(image@, files, info.size)->Ok_0;
    let sorted = list.sort_by(region::region_order());
    lemma_located_one_by_one(image@, files, info.size, list);
    lemma_in_order(list);
    lemma_built(info.size, info.default@, sorted, areas.args);
    assert forall|m: int| 0 <= m < areas.regions.len() implies exists|i: int|
        0 <= i < info.files@.len() && (iso::file_at(
            image@.entries,
            text::uppercase((#[trigger] info.files@[i]).path@),
        ) matches Ok(file) && (#[trigger] areas.regions[m]).offset == file.offset
            + info.files@[i].offset) by {
        assert(sorted.contains(sorted[m]));
        let i = choose|i: int| 0 <= i < list.len() && list[i] == sorted[m];
        assert(files[i] == info.files@[i]@);
        assert(areas.regions[m].offset == list[i].offset);
    }
    assert forall|m: int| 0 <= m < areas.regions.len() implies {
        &&& (#[trigger] areas.regions[m]).length == info.size
        &&& !areas.regions[m].modified
        &&& areas.regions[m].contents.len() == info.size
        &&& info.size > 0 ==> areas.regions[m].offset + info.size <= image.file@.len()
        &&& forall|j: int|
            0 <= j < info.size ==> #[trigger] areas.regions[m].contents[j]
                == image.file@[areas.regions[m].offset + j]
        &&& area::area_kargs(areas.regions[m].contents) == Some(areas.args)
    } by {
        assert(sorted.contains(sorted[m]));
        let i = choose|i: int| 0 <= i < list.len() && list[i] == sorted[m];
        assert(files[i] == info.files@[i]@);
    }
}

/// Each location that a description lists has its karg embed area.
pub proof fn law_described_locations(image: IsoFs, info: KargEmbedInfo, areas: AreasView)
    requires
        kargs::described_areas(image@, info@) == Ok::<AreasView, Refusal>(areas),
    ensures
        forall|i: int|
            0 <= i < info.files@.len() ==> (iso::file_at(
                image@.entries,
                text::uppercase((#[trigger] info.files@[i]).path@),
            ) matches Ok(file) && exists|m: int|
                0 <= m < areas.regions.len() && (#[trigger] areas.regions[m]).offset == file.offset
                    + info.files@[i].offset),
{
    let files = kargs::location_views(info.files@);
    let list = kargs::located_areas(image@, files, info.size)->Ok_0;
    let sorted = list.sort_by(region::region_order());
    lemma_located_one_by_one(image@, files, info.size, list);
    lemma_in_order(list);
    lemma_built(info.size, info.default@, sorted, areas.args);
    assert forall|i: int| 0 <= i < info.files@.len() implies (iso::file_at(
        image@.entries,
        text::uppercase((#[trigger] info.files@[i]).path@),
    ) matches Ok(file) && exists|m: int|
        0 <= m < areas.regions.len() && (#[trigger] areas.regions[m]).offset == file.offset
            + info.files@[i].offset) by {
        assert(files[i] == info.files@[i]@);
        assert(list.contains(list[i]));
        assert(sorted.contains(list[i]));
        let m = choose|m: int| 0 <= m < sorted.len() && sorted[m] == list[i];
        assert(areas.regions[m].offset == list[i].offset);
    }
}

/// The number that eight bytes of a file denote, the least significant byte first.
pub open spec fn number_at(file: Seq<u8>, at: int) -> int {
    file[at] + 0x100 * file[at + 1] + 0x1_0000 * file[at + 2] + 0x100_0000 * file[at + 3]
        + 0x1_0000_0000 * file[at + 4] + 0x100_0000_0000 * file[at + 5] + 0x1_0000_0000_0000
        * file[at + 6] + 0x100_0000_0000_0000 * file[at + 7]
}

proof fn lemma_little_endian(s: Seq<u8>)
    requires
        s.len() == 8,
    ensures
        kargs::little_endian(s) == number_at(s, 0),
        0 <= number_at(s, 0) <= u64::MAX,
{
    reveal_with_fuel(kargs::little_endian, 9);
    let s1 = s.drop_first();
    let s2 = s1.drop_first();
    let s3 = s2.drop_first();
    let s4 = s3.drop_first();
    let s5 = s4.drop_first();
    let s6 = s5.drop_first();
    let s7 = s6.drop_first();
    assert(kargs::little_endian(s7) == s[7]);
    assert(kargs::little_endian(s6) == s[6] + 256 * kargs::little_endian(s7));
    assert(kargs::little_endian(s5) == s[5] + 256 * kargs::little_endian(s6));
    assert(kargs::little_endian(s4) == s[4] + 256 * kargs::little_endian(s5));
    assert(kargs::little_endian(s3) == s[3] + 256 * kargs::little_endian(s4));
    assert(kargs::little_endian(s2) == s[2] + 256 * kargs::little_endian(s3));
    assert(kargs::little_endian(s1) == s[1] + 256 * kargs::little_endian(s2));
    assert(kargs::little_endian(s) == s[0] + 256 * kargs::little_endian(s1));
}

/// The areas at a list of offsets, one by one.
proof fn lemma_listed_one_by_one(
    file: Seq<u8>,
    offsets: Seq<u8>,
    length: usize,
    i: int,
    list: Seq<RegionView>,
)
    requires
        0 <= i <= 6,
        offsets.len() == 48,
        kargs::header_areas(file, offsets, length, i) == Ok::<Seq<RegionView>, Refusal>(list),
    ensures
        list.len() <= 6 - i,
        list.len() < 6 - i ==> number_at(offsets, 8 * (i + list.len())) == 0,
        forall|k: int|
            0 <= k < list.len() ==> {
                &&& (#[trigger] list[k]).offset == number_at(offsets, 8 * (i + k))
                &&& list[k].offset != 0
                &&& list[k] == region::region_at(file, list[k].offset, length)
                &&& region::readable(file, list[k].offset as int, length as int)
            },
    decreases 6 - i,
{
    if i < 6 {
        let part = offsets.subrange(8 * i, 8 * i + 8);
        lemma_little_endian(part);
        assert(number_at(part, 0) == number_at(offsets, 8 * i));
        let offset = kargs::header_number(offsets, i) as u64;
        if offset != 0 {
            let rest = kargs::header_areas(file, offsets, length, i + 1)->Ok_0;
            lemma_listed_one_by_one(file, offsets, length, i + 1, rest);
            assert(list == seq![region::region_at(file, offset, length)] + rest);
            assert(list.len() == 1 + rest.len());
            assert forall|k: int| 0 <= k < list.len() implies {
                &&& (#[trigger] list[k]).offset == number_at(offsets, 8 * (i + k))
                &&& list[k].offset != 0
                &&& list[k] == region::region_at(file, list[k].offset, length)
                &&& region::readable(file, list[k].offset as int, length as int)
            } by {
                if k > 0 {
                    assert(list[k] == rest[k - 1]);
                    assert(i + 1 + (k - 1) == i + k);
                }
            }
            assert(i + 1 + rest.len() == i + list.len());
        }
    }
}

/// The karg embed areas that the system area of an image announces: behind the magic
/// number at 32672 stand the length of the areas, where the kargs lie that the image
/// was built with, and up to six offsets of areas, of which a zero ends the list; and
/// all of the areas hold the same kargs.
pub proof fn law_system_areas(file: Seq<u8>, areas: AreasView)
    requires
        kargs::system_areas(file) == Ok::<Option<AreasView>, Refusal>(Some(areas)),
    ensures
        file.len() >= 32744,
        areas.length == number_at(file, 32680),
        areas.length <= 2048,
        area::area_kargs(
            Seq::new(areas.length as nat, |j: int| file[number_at(file, 32688) + j]),
        ) == Some(areas.default),
        0 < areas.regions.len() <= 6,
        areas.regions.len() < 6 ==> number_at(
            file,
            32696 + 8 * areas.regions.len() as int,
        ) == 0,
        forall|k: int|
            0 <= k < areas.regions.len() ==> {
                &&& (#[trigger] areas.regions[k]).offset == number_at(file, 32696 + 8 * k)
                &&& areas.regions[k].offset != 0
                &&& areas.regions[k].length == areas.length
                &&& !areas.regions[k].modified
                &&& areas.regions[k].contents.len() == areas.length
                &&& forall|j: int|
                    0 <= j < areas.length ==> #[trigger] areas.regions[k].contents[j]
                        == file[areas.regions[k].offset + j]
                &&& area::area_kargs(areas.regions[k].contents) == Some(areas.args)
            },
{
    let header = file.subrange(32672, 32744);
    let offsets = header.skip(24);
    lemma_little_endian(header.subrange(8, 16));
    lemma_little_endian(header.subrange(16, 24));
    let length = kargs::header_number(header, 1);
    let default_offset = kargs::header_number(header, 2) as u64;
    assert(number_at(header.subrange(8, 16), 0) == number_at(file, 32680));
    assert(number_at(header.subrange(16, 24), 0) == number_at(file, 32688));
    let default_region = region::region_at(file, default_offset, length as usize);
    assert(default_region.contents =~= Seq::new(
        length as nat,
        |j: int| file[number_at(file, 32688) + j],
    ));
    let list = kargs::header_areas(file, offsets, length as usize, 0)->Ok_0;
    lemma_listed_one_by_one(file, offsets, length as usize, 0, list);
    let default = area::area_kargs(default_region.contents)->0;
    lemma_built(length as usize, default, list, areas.args);
    assert(areas.regions == list);
    assert forall|k: int| 0 <= k < areas.regions.len() implies {
        &&& (#[trigger] areas.regions[k]).offset == number_at(file, 32696 + 8 * k)
        &&& areas.regions[k].offset != 0
        &&& areas.regions[k].length == areas.length
        &&& !areas.regions[k].modified
        &&& areas.regions[k].contents.len() == areas.length
        &&& forall|j: int|
            0 <= j < areas.length ==> #[trigger] areas.regions[k].contents[j]
                == file[areas.regions[k].offset + j]
        &&& area::area_kargs(areas.regions[k].contents) == Some(areas.args)
    } by {
        assert(list[k].offset == number_at(offsets, 8 * k));
        assert(number_at(offsets, 8 * k) == number_at(file, 32696 + 8 * k));
    }
    if areas.regions.len() < 6 {
        let n = areas.regions.len() as int;
        assert(number_at(offsets, 8 * n) == number_at(file, 32696 + 8 * n));
    }
}

/// The regions at a list of locations are found where each file is there and each
/// region lies in the image.
proof fn lemma_located_owed(image: iso::IsoView, files: Seq<LocationView>, size: usize)
    requires
        forall|i: int|
            0 <= i < files.len() ==> (iso::file_at(
                image.entries,
                text::uppercase((#[trigger] files[i]).path),
            ) matches Ok(file) && file.offset + files[i].offset + size <= image.file.len()),
        image.file.len() <= 0x7fff_ffff_ffff_ffff,
    ensures
        kargs::located_areas(image, files, size) is Ok,
    decreases files.len(),
{
    if files.len() > 0 {
        let before = files.drop_last();
        assert forall|i: int| 0 <= i < before.len() implies (iso::file_at(
            image.entries,
            text::uppercase((#[trigger] before[i]).path),
        ) matches Ok(file) && file.offset + before[i].offset + size <= image.file.len()) by {
            assert(before[i] == files[i]);
        }
        lemma_located_owed(image, before, size);
        assert(files[files.len() - 1] == files.last());
    }
}

/// The karg embed areas that a description announces are found wherever it lists some,
/// their size is not too large, the kargs that the image was built with are no longer
/// than that, each file is there, each area lies in the image, and all of them hold
/// the same kargs.
pub proof fn law_described_areas_owed(image: IsoFs, info: KargEmbedInfo, args: Seq<char>)
    requires
        info.size <= 2048,
        encode_utf8(info.default@).len() <= info.size,
        info.files@.len() > 0,
        image.file@.len() <= 0x7fff_ffff_ffff_ffff,
        forall|i: int|
            0 <= i < info.files@.len() ==> (iso::file_at(
                image@.entries,
                text::uppercase((#[trigger] info.files@[i]).path@),
            ) matches Ok(file) && {
                &&& file.offset + info.files@[i].offset + info.size <= image.file@.len()
                &&& area::area_kargs(
                    Seq::new(
                        info.size as nat,
                        |j: int| image.file@[file.offset + info.files@[i].offset + j],
                    ),
                ) == Some(args)
            }),
    ensures
        kargs::described_areas(image@, info@) is Ok,
{
    let files = kargs::location_views(info.files@);
    assert forall|i: int| 0 <= i < files.len() implies (iso::file_at(
        image@.entries,
        text::uppercase((#[trigger] files[i]).path),
    ) matches Ok(file) && file.offset + files[i].offset + info.size <= image.file@.len()) by {
        assert(files[i] == info.files@[i]@);
    }
    lemma_located_owed(image@, files, info.size);
    let list = kargs::located_areas(image@, files, info.size)->Ok_0;
    let sorted = list.sort_by(region::region_order());
    lemma_located_one_by_one(image@, files, info.size, list);
    lemma_in_order(list);
    assert forall|m: int| 0 <= m < sorted.len() implies area::area_kargs(
        (#[trigger] sorted[m]).contents,
    ) == Some(args) by {
        assert(sorted.contains(sorted[m]));
        let i = choose|i: int| 0 <= i < list.len() && list[i] == sorted[m];
        assert(files[i] == info.files@[i]@);
        let file = iso::file_at(image@.entries, text::uppercase(info.files@[i].path@))->Ok_0;
        assert(list[i].contents =~= Seq::new(
            info.size as nat,
            |j: int| image.file@[file.offset + info.files@[i].offset + j],
        ));
    }
    lemma_built(info.size, info.default@, sorted, args);
}

/// The karg embed areas of an image are those that its description announces, which
/// is parsed from the bytes of the file of the first entry for `COREOS/KARGS.JSO`; an
/// image without such an entry has those that its system area announces.
pub proof fn law_areas_source<P: Fn(&[u8]) -> Result<KargEmbedInfo, String>>(
    image: IsoFs,
    parse: P,
    r: Result<Option<AreasView>, Refusal>,
)
    requires
        kargs::areas_read(image@, parse, r),
    ensures
        (forall|k: int|
            0 <= k < image.entries@.len() ==> (#[trigger] image.entries@[k]).path@
                != "COREOS/KARGS.JSO"@) ==> r == kargs::system_areas(image.file@),
        iso::file_at(image@.entries, "COREOS/KARGS.JSO"@) matches Ok(file) ==> exists|
            bytes: &[u8],
            out: Result<KargEmbedInfo, String>,
        |
            {
                &&& bytes@ == iso::file_bytes(image.file@, file)
                &&& #[trigger] call_ensures(parse, (bytes,), out)
                &&& match out {
                    Ok(info) => r == match kargs::described_areas(image@, info@) {
                        Ok(areas) => Ok(Some(areas)),
                        Err(e) => Err(e),
                    },
                    Err(reason) => r == Err::<Option<AreasView>, Refusal>(
                        Refusal::ParseKargInfo { reason: reason@ },
                    ),
                }
            },
{
    lemma_first_entry(image, "COREOS/KARGS.JSO"@);
    let info = choose|info: Result<Option<KargEmbedInfo>, LiveError>| #[trigger]
        kargs::info_read(image@, parse, info) && r == (match info {
            Err(e) => Err(e@),
            Ok(None) => kargs::system_areas(image@.file),
            Ok(Some(info)) => match kargs::described_areas(image@, info@) {
                Ok(areas) => Ok(Some(areas)),
                Err(e) => Err(e),
            },
        });
    if iso::file_at(image@.entries, "COREOS/KARGS.JSO"@) is Ok {
        let file = iso::file_at(image@.entries, "COREOS/KARGS.JSO"@)->Ok_0;
        let (bytes, out) = choose|bytes: &[u8], parsed: Result<KargEmbedInfo, String>|
            {
                &&& bytes@ == iso::file_bytes(image@.file, file)
                &&& #[trigger] call_ensures(parse, (bytes,), parsed)
                &&& match parsed {
                    Ok(found) => info == Ok::<Option<KargEmbedInfo>, LiveError>(Some(found)),
                    Err(reason) => info matches Err(found) && found@ == (Refusal::ParseKargInfo {
                        reason: reason@,
                    }),
                }
            };
        assert(call_ensures(parse, (bytes,), out));
    }
}

/// The features of the OS of an image are what is parsed from the bytes of the file of
/// the first entry for `COREOS/FEATURES.JSO`; the OS of an image without such an entry
/// has none.
pub proof fn law_image_features<F: Fn(&[u8]) -> Result<OsFeatures, String>>(
    image: IsoFs,
    parse: F,
    r: Result<OsFeatures, Refusal>,
)
    requires
        customize_commands::image_features(image@, parse, r),
    ensures
        (forall|k: int|
            0 <= k < image.entries@.len() ==> (#[trigger] image.entries@[k]).path@
                != "COREOS/FEATURES.JSO"@) ==> (r matches Ok(features)
            && !features.installer_config && !features.live_initrd_network),
        iso::file_at(image@.entries, "COREOS/FEATURES.JSO"@) matches Ok(file) ==> exists|
            bytes: &[u8],
            out: Result<OsFeatures, String>,
        |
            {
                &&& bytes@ == iso::file_bytes(image.file@, file)
                &&& #[trigger] call_ensures(parse, (bytes,), out)
                &&& match out {
                    Ok(features) => r == Ok::<OsFeatures, Refusal>(features),
                    Err(reason) => r == Err::<OsFeatures, Refusal>(
                        Refusal::ParseFeatures { reason: reason@ },
                    ),
                }
            },
{
    lemma_first_entry(image, "COREOS/FEATURES.JSO"@);
}

/// The system area of an image announces no karg embed areas exactly if it can be read
/// and does not hold `coreKarg` where their header would be.
pub proof fn law_no_system_areas(file: Seq<u8>)
    ensures
        kargs::system_areas(file) == Ok::<Option<AreasView>, Refusal>(None) <==> {
            &&& file.len() >= 32744
            &&& !{
                &&& file[32672] == 0x63
                &&& file[32673] == 0x6f
                &&& file[32674] == 0x72
                &&& file[32675] == 0x65
                &&& file[32676] == 0x4b
                &&& file[32677] == 0x61
                &&& file[32678] == 0x72
                &&& file[32679] == 0x67
            }
        },
{
    let magic = kargs::KARG_HEADER_MAGIC@;
    assert(magic =~= seq![0x63u8, 0x6f, 0x72, 0x65, 0x4b, 0x61, 0x72, 0x67]);
    if file.len() >= 32744 {
        let header = file.subrange(32672, 32744);
        let found = header.take(8);
        assert forall|i: int| 0 <= i < 8 implies #[trigger] found[i] == file[32672 + i] by {}
        if found == magic {
            assert(found[0] == 0x63 && found[1] == 0x6f && found[2] == 0x72 && found[3] == 0x65);
            assert(found[4] == 0x4b && found[5] == 0x61 && found[6] == 0x72 && found[7] == 0x67);
        }
        if file[32672] == 0x63 && file[32673] == 0x6f && file[32674] == 0x72 && file[32675] == 0x65
            && file[32676] == 0x4b && file[32677] == 0x61 && file[32678] == 0x72 && file[32679]
            == 0x67 {
            assert(found =~= magic);
        }
    }
}

/// The areas at a list of offsets are found where each lies in the file.
proof fn lemma_listed_owed(file: Seq<u8>, offsets: Seq<u8>, length: usize, i: int, n: int)
    requires
        0 <= i <= n <= 6,
        offsets.len() == 48,
        file.len() <= 0x7fff_ffff_ffff_ffff,
        n < 6 ==> number_at(offsets, 8 * n) == 0,
        forall|k: int|
            i <= k < n ==> 0 < #[trigger] number_at(offsets, 8 * k) && number_at(offsets, 8 * k)
                + length <= file.len(),
    ensures
        kargs::header_areas(file, offsets, length, i) matches Ok(list) && list.len() == n - i,
    decreases 6 - i,
{
    if i < 6 {
        let part = offsets.subrange(8 * i, 8 * i + 8);
        lemma_little_endian(part);
        assert(number_at(part, 0) == number_at(offsets, 8 * i));
        if i < n {
            assert(0 < number_at(offsets, 8 * i));
            lemma_listed_owed(file, offsets, length, i + 1, n);
        }
    }
}

/// The karg embed areas that the system area of an image announces are found wherever
/// the header begins as it should, their length is not too large, there are some, all
/// of them and the kargs that the image was built with lie in the image and are text,
/// and all of the areas hold the same kargs.
pub proof fn law_system_areas_owed(file: Seq<u8>, n: int, args: Seq<char>)
    requires
        32744 <= file.len() <= 0x7fff_ffff_ffff_ffff,
        kargs::system_areas(file) != Ok::<Option<AreasView>, Refusal>(None),
        0 < number_at(file, 32680) <= 2048,
        number_at(file, 32688) + number_at(file, 32680) <= file.len(),
        valid_utf8(
            Seq::new(
                number_at(file, 32680) as nat,
                |j: int| file[number_at(file, 32688) + j],
            ),
        ),
        0 < n <= 6,
        n < 6 ==> number_at(file, 32696 + 8 * n) == 0,
        forall|k: int|
            0 <= k < n ==> {
                &&& 0 < #[trigger] number_at(file, 32696 + 8 * k)
                &&& number_at(file, 32696 + 8 * k) + number_at(file, 32680) <= file.len()
                &&& area::area_kargs(
                    Seq::new(
                        number_at(file, 32680) as nat,
                        |j: int| file[number_at(file, 32696 + 8 * k) + j],
                    ),
                ) == Some(args)
            },
    ensures
        kargs::system_areas(file) matches Ok(Some(areas)) && areas.regions.len() == n && areas.args
            == args,
{
    let header = file.subrange(32672, 32744);
    let offsets = header.skip(24);
    lemma_little_endian(header.subrange(8, 16));
    lemma_little_endian(header.subrange(16, 24));
    assert(number_at(header.subrange(8, 16), 0) == number_at(file, 32680));
    assert(number_at(header.subrange(16, 24), 0) == number_at(file, 32688));
    let length = kargs::header_number(header, 1) as usize;
    let default_offset = kargs::header_number(header, 2) as u64;
    let default_region = region::region_at(file, default_offset, length);
    assert(default_region.contents =~= Seq::new(
        length as nat,
        |j: int| file[number_at(file, 32688) + j],
    ));
    assert forall|k: int| 0 <= k < n implies 0 < #[trigger] number_at(offsets, 8 * k) && number_at(
        offsets,
        8 * k,
    ) + length <= file.len() by {
        assert(number_at(offsets, 8 * k) == number_at(file, 32696 + 8 * k));
    }
    if n < 6 {
        assert(number_at(offsets, 8 * n) == number_at(file, 32696 + 8 * n));
    }
    lemma_listed_owed(file, offsets, length, 0, n);
    let list = kargs::header_areas(file, offsets, length, 0)->Ok_0;
    lemma_listed_one_by_one(file, offsets, length, 0, list);
    assert forall|k: int| 0 <= k < list.len() implies area::area_kargs(
        (#[trigger] list[k]).contents,
    ) == Some(args) by {
        assert(list[k].offset == number_at(offsets, 8 * k));
        assert(number_at(offsets, 8 * k) == number_at(file, 32696 + 8 * k));
        assert(list[k].contents =~= Seq::new(
            number_at(file, 32680) as nat,
            |j: int| file[number_at(file, 32696 + 8 * k) + j],
        ));
    }
    let default = area::area_kargs(default_region.contents)->0;
    lemma_built(length, default, list, args);
    assert(area::area_kargs(list[0].contents) == Some(args));
}

/// What is read of an image are its embed area and its karg embed areas, both of them;
/// and if one of them cannot be read, that is why the image cannot be.
pub proof fn law_config_read<
    D: Fn(&[u8]) -> Result<Initrd, String>,
    P: Fn(&[u8]) -> Result<KargEmbedInfo, String>,
>(image: IsoFs, decode: D, parse: P, r: Result<ConfigView, Refusal>)
    requires
        iso_config::config_read(image@, decode, parse, r),
    ensures
        r matches Ok(config) ==> embed::embed_read(image@, decode, Ok(config.initrd))
            && kargs::areas_read(image@, parse, Ok(config.kargs)),
        r matches Err(e) ==> embed::embed_read(image@, decode, Err(e)) || kargs::areas_read(
            image@,
            parse,
            Err(e),
        ),
{
    let area = choose|area: Result<EmbedView, Refusal>| #[trigger]
        embed::embed_read(image@, decode, area) && match area {
            Err(e) => r == Err::<ConfigView, Refusal>(e),
            Ok(area) => exists|kargs: Result<Option<AreasView>, Refusal>| #[trigger]
                kargs::areas_read(image@, parse, kargs) && r == (match kargs {
                    Err(e) => Err(e),
                    Ok(kargs) => Ok(ConfigView { initrd: area, kargs }),
                }),
        };
    if area is Ok {
        let kargs = choose|kargs: Result<Option<AreasView>, Refusal>| #[trigger]
            kargs::areas_read(image@, parse, kargs) && r == (match kargs {
                Err(e) => Err(e),
                Ok(kargs) => Ok(ConfigView { initrd: area->Ok_0, kargs }),
            });
        assert(kargs::areas_read(image@, parse, kargs));
    }
}

/// A new description of the karg embed areas is what `to_json` makes of it, all of it;
/// it fills the file of the first entry for `COREOS/KARGS.JSO`, with spaces behind it,
/// and is refused only if there is no such file, it cannot be encoded, or it is longer
/// than the file.
pub proof fn law_description_written<G: Fn(&KargEmbedInfo) -> Result<String, String>>(
    image: IsoFs,
    info: KargEmbedInfo,
    to_json: G,
    r: Result<WriteView, Refusal>,
)
    requires
        kargs::info_updated(image@, info@, to_json, r),
    ensures
        iso::file_at(image@.entries, "COREOS/KARGS.JSO"@) matches Err(e) ==> r == Err::<
            WriteView,
            Refusal,
        >(e),
        iso::file_at(image@.entries, "COREOS/KARGS.JSO"@) matches Ok(file) ==> exists|
            given: &KargEmbedInfo,
            out: Result<String, String>,
        |
            {
                &&& #[trigger] call_ensures(to_json, (given,), out)
                &&& given.default@ == info.default@
                &&& given.size == info.size
                &&& given.files@.len() == info.files@.len()
                &&& forall|i: int|
                    0 <= i < info.files@.len() ==> {
                        &&& given.files@[i].path@ == (#[trigger] info.files@[i]).path@
                        &&& given.files@[i].offset == info.files@[i].offset
                    }
                &&& match out {
                    Err(reason) => r == Err::<WriteView, Refusal>(
                        Refusal::SerializeKargInfo { reason: reason@ },
                    ),
                    Ok(json) => if encode_utf8(json@).len() <= file.length {
                        r matches Ok(write) && {
                            &&& write.offset == file.offset
                            &&& write.data.len() == file.length
                            &&& forall|j: int|
                                0 <= j < file.length ==> #[trigger] write.data[j] == (if j
                                    < encode_utf8(json@).len() {
                                    encode_utf8(json@)[j]
                                } else {
                                    32u8
                                })
                        }
                    } else {
                        r == Err::<WriteView, Refusal>(
                            Refusal::KargInfoTooLarge {
                                needed: encode_utf8(json@).len() as usize,
                                file_length: file.length,
                            },
                        )
                    },
                }
            },
{
    if iso::file_at(image@.entries, "COREOS/KARGS.JSO"@) is Ok {
        let file = iso::file_at(image@.entries, "COREOS/KARGS.JSO"@)->Ok_0;
        let (given, out) = choose|i: &KargEmbedInfo, json: Result<String, String>|
            {
                &&& i@ == info@
                &&& #[trigger] call_ensures(to_json, (i,), json)
                &&& r == match json {
                    Ok(json) => kargs::info_write(json@, file),
                    Err(reason) => Err(Refusal::SerializeKargInfo { reason: reason@ }),
                }
            };
        let a = kargs::location_views(given.files@);
        let b = kargs::location_views(info.files@);
        assert(a == b);
        assert(a.len() == given.files@.len() && b.len() == info.files@.len());
        assert forall|i: int| 0 <= i < info.files@.len() implies {
            &&& given.files@[i].path@ == (#[trigger] info.files@[i]).path@
            &&& given.files@[i].offset == info.files@[i].offset
        } by {
            assert(a[i] == given.files@[i]@);
            assert(b[i] == info.files@[i]@);
        }
        assert(call_ensures(to_json, (given,), out));
    }
}

} // verus!
