//! Directory entries and their record rendering.
//!
//! A directory entry is a record of a name, an entry type, a content field
//! (a chunk hash for files and directories, the link target for symlinks,
//! or the literal `empty` for zero-length files), and link-level metadata.
//! Records render as NUL-separated fields in a fixed order.

use vstd::prelude::*;

use crate::numfmt::{dec_of, dec_of_int, i64_to_string, u64_to_string};
use crate::EType;

verus! {

/// One directory entry, as the walker reports it.
pub struct DirEnt {
    pub name: String,
    pub etype: EType,
    pub content: String,
    pub size: u64,
    pub mode: u32,
    pub uid: u32,
    pub gid: u32,
    pub mtime: i64,
    pub atime: i64,
    pub ctime: i64,
}

/// The rendering of an entry type.
pub open spec fn etype_chars(e: EType) -> Seq<char> {
    match e {
        EType::Dir => "Dir"@,
        EType::File => "File"@,
        EType::Link => "Link"@,
    }
}

/// Render an entry type.
pub fn etype_str(e: EType) -> (r: &'static str)
    ensures
        r@ == etype_chars(e),
{
    match e {
        EType::Dir => "Dir",
        EType::File => "File",
        EType::Link => "Link",
    }
}

/// The field separator inside a record.
pub open spec fn nul() -> Seq<char> {
    seq!['\0']
}

/// The rendering of one entry: its fields in the order
/// name, type, content, size, mode, uid, gid, mtime, atime, ctime,
/// separated by single NUL characters.
pub open spec fn record_chars(e: DirEnt) -> Seq<char> {
    e.name@ + nul() + etype_chars(e.etype) + nul() + e.content@ + nul() + dec_of(e.size as nat)
        + nul() + dec_of(e.mode as nat) + nul() + dec_of(e.uid as nat) + nul() + dec_of(
        e.gid as nat,
    ) + nul() + dec_of_int(e.mtime as int) + nul() + dec_of_int(e.atime as int) + nul()
        + dec_of_int(e.ctime as int)
}

/// Render one entry as its NUL-separated record.
pub fn render_record(e: &DirEnt) -> (r: String)
    ensures
        r@ == record_chars(*e),
{
    proof {
        reveal_strlit("\0");
    }
    let mut r = String::new();
    r.append(e.name.as_str());
    r.append("\0");
    r.append(etype_str(e.etype));
    r.append("\0");
    r.append(e.content.as_str());
    r.append("\0");
    r.append(u64_to_string(e.size).as_str());
    r.append("\0");
    r.append(u64_to_string(e.mode as u64).as_str());
    r.append("\0");
    r.append(u64_to_string(e.uid as u64).as_str());
    r.append("\0");
    r.append(u64_to_string(e.gid as u64).as_str());
    r.append("\0");
    r.append(i64_to_string(e.mtime).as_str());
    r.append("\0");
    r.append(i64_to_string(e.atime).as_str());
    r.append("\0");
    r.append(i64_to_string(e.ctime).as_str());
    proof {
        assert(r@ =~= record_chars(*e));
    }
    r
}

/// The scan-pass size estimate of one entry: the name and content lengths
/// plus a fixed allowance for the numeric fields and separators.
pub open spec fn ent_estimate(e: DirEnt) -> nat {
    e.name@.len() + 25 + e.content@.len()
}

/// The scan-pass size estimate of a whole entry list: the entries'
/// estimates, plus one byte for each entry after the first.
pub open spec fn ents_estimate(entries: Seq<DirEnt>) -> nat
    decreases entries.len(),
{
    if entries.len() == 0 {
        0
    } else if entries.len() == 1 {
        ent_estimate(entries[0])
    } else {
        ents_estimate(entries.drop_last()) + 1 + ent_estimate(entries.last())
    }
}

/// Estimate the serialized size of an entry list without rendering it,
/// so the scan pass can size the progress total without network work.
pub fn bytes_ents(entries: Vec<DirEnt>) -> (r: u64)
    requires
        ents_estimate(entries@) <= u64::MAX,
    ensures
        r == ents_estimate(entries@),
{
    let mut ans: u64 = 0;
    let mut i: usize = 0;
    while i < entries.len()
        invariant
            0 <= i <= entries@.len(),
            ans == ents_estimate(entries@.take(i as int)),
            ents_estimate(entries@) <= u64::MAX,
        decreases entries@.len() - i,
    {
        proof {
            assert(entries@.take(i + 1).drop_last() =~= entries@.take(i as int));
            assert(entries@.take(i + 1).last() == entries@[i as int]);
            lemma_ents_estimate_prefix(entries@, i + 1);
        }
        if i != 0 {
            ans = ans + 1;
        }
        let ent = &entries[i];
        let name_len = ent.name.as_str().unicode_len();
        let content_len = ent.content.as_str().unicode_len();
        ans = ans + name_len as u64 + 25 + content_len as u64;
        i += 1;
    }
    proof {
        assert(entries@.take(entries@.len() as int) =~= entries@);
    }
    ans
}

/// A prefix of an entry list never estimates larger than the whole list.
proof fn lemma_ents_estimate_prefix(entries: Seq<DirEnt>, i: int)
    requires
        0 <= i <= entries.len(),
    ensures
        ents_estimate(entries.take(i)) <= ents_estimate(entries),
    decreases entries.len() - i,
{
    if i < entries.len() {
        lemma_ents_estimate_prefix(entries, i + 1);
        assert(entries.take(i + 1).drop_last() =~= entries.take(i));
    } else {
        assert(entries.take(i) =~= entries);
    }
}

} // verus!
