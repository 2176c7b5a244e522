//! What opening an archive makes of the bytes that follow its index.
use vstd::prelude::*;
use crate::bytes::u32_at;
use crate::pfs::blocks::after;
use crate::pfs::footer::Footer;
use crate::pfs::header::Header;
use crate::pfs::index_entry::IndexEntry;
use crate::pfs::read::{spec_open, spec_index_entries};

verus! {

/// An entry is read from its first 12 bytes alone.
proof fn lemma_entry_prefix(a: Seq<u8>, b: Seq<u8>)
    requires
        a.len() >= 12,
        b.len() >= 12,
        forall|k: int| 0 <= k < 12 ==> a[k] == b[k],
    ensures
        IndexEntry::decode(a) == IndexEntry::decode(b),
{
}

/// Whatever bytes `t` follow the index of an archive that ends with its
/// index, the archive still opens, with the same index and directory; a
/// footer is read from `t` exactly when it holds at least nine bytes.
#[verifier::spinoff_prover]
#[verifier::rlimit(50)]
pub proof fn lemma_open_with_trailer(data: Seq<u8>, t: Seq<u8>)
    requires
        spec_open(data, data) is Ok,
        data.len() == Header::decode(data).index_offset + 4 + 12 * u32_at(
            data,
            Header::decode(data).index_offset as int,
        ),
    ensures
        ({
            let m = spec_open(data, data)->Ok_0;
            &&& spec_open(data + t, data + t) is Ok
            &&& spec_open(data + t, data + t)->Ok_0.index == m.index
            &&& spec_open(data + t, data + t)->Ok_0.directory == m.directory
            &&& spec_open(data + t, data + t)->Ok_0.footer == (if t.len() >= 9 {
                Some(Footer::decode(t))
            } else {
                None
            })
        }),
{
    let x = data + t;
    assert(forall|k: int| 0 <= k < 12 ==> x[k] == data[k]);
    assert(Header::decode(x) == Header::decode(data));
    let h = Header::decode(data);
    let io = h.index_offset as int;
    let s = after(data, io);
    let s2 = after(x, io);
    assert(0 <= io <= data.len());
    assert(s2 =~= s + t);
    assert(forall|k: int| 0 <= k < 4 ==> s2[k] == s[k]);
    let count = u32_at(s, 0);
    assert(u32_at(s2, 0) == count);
    assert(u32_at(data, io) == count);
    assert(s.len() == 4 + 12 * count);
    let e1 = spec_index_entries(s.skip(4), count as nat);
    let e2 = spec_index_entries(s2.skip(4), count as nat);
    assert forall|i: int| 0 <= i < count implies #[trigger] e2[i] == e1[i] by {
        let a = s2.skip(4).skip(12 * i);
        let b = s.skip(4).skip(12 * i);
        assert forall|k: int| 0 <= k < 12 implies a[k] == b[k] by {
            assert(a[k] == s2[4 + 12 * i + k]);
            assert(b[k] == s[4 + 12 * i + k]);
        }
        lemma_entry_prefix(a, b);
    }
    assert(e2 =~= e1);
    assert(s2.skip(4 + 12 * count) =~= t);
}

} // verus!
