use vstd::prelude::*;

use crate::meta::Header;

verus! {

/// Index of the last header among `hs` whose entry is named `name`.
pub open spec fn last_named(hs: Seq<Header>, name: Seq<char>) -> Option<nat>
    decreases hs.len(),
{
    if hs.len() == 0 {
        None
    } else if hs.last().name@ == name {
        Some((hs.len() - 1) as nat)
    } else {
        last_named(hs.drop_last(), name)
    }
}

/// `h` is `g` linked to the revision at `prev`: every field is kept but the
/// link.
pub open spec fn relinked(h: Header, g: Header, prev: Option<nat>) -> bool {
    &&& h.check == g.check
    &&& h.offset == g.offset
    &&& h.typeflag == g.typeflag
    &&& h.name@ == g.name@
    &&& h.linkname@ == g.linkname@
    &&& h.uname@ == g.uname@
    &&& h.gname@ == g.gname@
    &&& h.mode == g.mode
    &&& h.uid == g.uid
    &&& h.gid == g.gid
    &&& h.mtime == g.mtime
    &&& h.size == g.size
    &&& match prev {
        Some(i) => h.prev matches Some(k) && k == i,
        None => h.prev is None,
    }
}

/// The headers of an archive in source order. An archive that was appended
/// to may hold several revisions of one entry: each header links to the
/// previous revision of its entry, the last earlier header of the same name.
#[derive(Debug)]
pub struct TarMeta {
    headers: Vec<Header>,
}

impl TarMeta {
    /// The headers, in source order.
    pub closed spec fn entries(&self) -> Seq<Header> {
        self.headers@
    }

    /// No headers yet.
    pub fn new() -> (r: TarMeta)
        ensures
            r.entries() == Seq::<Header>::empty(),
    {
        TarMeta { headers: Vec::new() }
    }

    /// Appends `header`, linked to the previous revision of its entry.
    pub fn push(&mut self, header: Header)
        ensures
            final(self).entries().len() == old(self).entries().len() + 1,
            final(self).entries().drop_last() == old(self).entries(),
            relinked(
                final(self).entries().last(),
                header,
                last_named(old(self).entries(), header.name@),
            ),
    {
        let mut i: usize = self.headers.len();
        let mut prev: Option<usize> = None;
        assert(self.headers@.take(i as int) =~= self.headers@);
        while i > 0
            invariant_except_break
                prev is None,
            invariant
                i <= self.headers@.len(),
                last_named(self.headers@, header.name@) == last_named(
                    self.headers@.take(i as int),
                    header.name@,
                ),
            ensures
                match last_named(self.headers@, header.name@) {
                    Some(j) => prev matches Some(k) && k == j,
                    None => prev is None,
                },
            decreases i,
        {
            assert(self.headers@.take(i as int).drop_last() =~= self.headers@.take(i - 1));
            if self.headers[i - 1].name == header.name {
                prev = Some(i - 1);
                break;
            }
            i = i - 1;
            if i == 0 {
                assert(self.headers@.take(0) =~= Seq::<Header>::empty());
            }
        }
        let mut header = header;
        header.prev = prev;
        self.headers.push(header);
    }

    /// The headers, in source order.
    pub fn headers(&self) -> (r: &Vec<Header>)
        ensures
            r@ == self.entries(),
    {
        &self.headers
    }
}

} // verus!
