//! Gap buffer: the text before the cursor sits at the front of the buffer,
//! the text after it at the back, and the gap between them absorbs edits.
use vstd::prelude::*;

verus! {

/// Text buffer with a movable gap.
pub struct GapBuffer {
    buffer: Vec<u8>,
    gap_start: usize,
    gap_end: usize,
}

impl GapBuffer {
    /// The text held: the bytes before the gap followed by the bytes after it.
    pub closed spec fn view(&self) -> Seq<u8> {
        self.buffer@.subrange(0, self.gap_start as int) + self.buffer@.subrange(self.gap_end as int, self.buffer@.len() as int)
    }

    /// Bytes allocated.
    pub closed spec fn capacity(&self) -> nat {
        self.buffer@.len()
    }

    /// Where the gap starts (the editing position).
    pub closed spec fn gap_pos(&self) -> nat {
        self.gap_start as nat
    }

    /// Free bytes in the gap.
    pub closed spec fn gap_len(&self) -> nat {
        (self.gap_end - self.gap_start) as nat
    }

    pub closed spec fn wf(&self) -> bool {
        self.gap_start <= self.gap_end <= self.buffer@.len() <= usize::MAX
    }

    /// The text never exceeds the allocation.
    pub proof fn lemma_len_bound(&self)
        requires
            self.wf(),
        ensures
            self@.len() <= self.capacity(),
    {
    }

    /// Empty text with 4096 bytes of room.
    pub fn new() -> (g: Self)
        ensures
            g.wf(),
            g@ == Seq::<u8>::empty(),
            g.capacity() == 4096,
            g.gap_len() == 4096,
    {
        let buffer: Vec<u8> = vec![0u8; 4096];
        let g = GapBuffer { buffer, gap_start: 0, gap_end: 4096 };
        assert(g@ =~= Seq::<u8>::empty());
        g
    }

    /// The given text followed by a 1024-byte gap.
    pub fn with_content(content: &[u8]) -> (g: Self)
        requires
            content@.len() + 1024 <= usize::MAX,
        ensures
            g.wf(),
            g@ == content@,
            g.capacity() == content@.len() + 1024,
            g.gap_pos() == content@.len(),
            g.gap_len() == 1024,
    {
        let capacity = content.len() + 1024;
        let mut buffer: Vec<u8> = Vec::new();
        let mut i: usize = 0;
        while i < content.len()
            invariant
                i <= content@.len(),
                buffer@ == content@.subrange(0, i as int),
            decreases content@.len() - i,
        {
            buffer.push(content[i]);
            i = i + 1;
            assert(buffer@ =~= content@.subrange(0, i as int));
        }
        while i < capacity
            invariant
                content@.len() <= i <= capacity,
                capacity == content@.len() + 1024,
                buffer@.len() == i,
                buffer@.subrange(0, content@.len() as int) == content@,
            decreases capacity - i,
        {
            let ghost before = buffer@;
            buffer.push(0u8);
            i = i + 1;
            assert(buffer@.subrange(0, content@.len() as int) =~= before.subrange(0, content@.len() as int));
        }
        let g = GapBuffer { buffer, gap_start: content.len(), gap_end: capacity };
        assert(g@ =~= content@);
        g
    }

    fn gap_size(&self) -> (r: usize)
        requires
            self.wf(),
        ensures
            r == self.gap_len(),
    {
        self.gap_end - self.gap_start
    }

    /// Bytes allocated.
    pub fn allocated(&self) -> (r: usize)
        ensures
            r == self.capacity(),
    {
        self.buffer.len()
    }

    /// Length of the text.
    pub fn content_len(&self) -> (r: usize)
        requires
            self.wf(),
        ensures
            r == self@.len(),
    {
        self.buffer.len() - self.gap_size()
    }

    /// Moves the gap to `min(pos, length)` without changing the text.
    pub fn move_gap(&mut self, pos: usize)
        requires
            old(self).wf(),
        ensures
            final(self).wf(),
            final(self)@ == old(self)@,
            final(self).capacity() == old(self).capacity(),
            final(self).gap_len() == old(self).gap_len(),
            final(self).gap_pos() == if pos < old(self)@.len() { pos as nat } else { old(self)@.len() },
    {
        let len = self.content_len();
        let pos = if pos < len { pos } else { len };
        let ghost old_buf = self.buffer@;
        let gs = self.gap_start;
        let ge = self.gap_end;
        assert(self@.len() == gs + old_buf.len() - ge);
        if pos < gs {
            let move_size = gs - pos;
            let src = pos;
            let dst = ge - move_size;
            let mut i: usize = move_size;
            while i > 0
                invariant
                    gs <= ge <= old_buf.len(),
                    pos < gs,
                    move_size == gs - pos,
                    src == pos,
                    dst == ge - move_size,
                    i <= move_size,
                    self.buffer@.len() == old_buf.len(),
                    self.gap_start == gs,
                    self.gap_end == ge,
                    forall|k: int| 0 <= k < self.buffer@.len() && !(dst + i <= k < dst + move_size) ==> self.buffer@[k] == old_buf[k],
                    forall|k: int| dst + i <= k < dst + move_size ==> #[trigger] self.buffer@[k] == old_buf[k - dst + src],
                decreases i,
            {
                i = i - 1;
                let b = self.buffer[src + i];
                self.buffer.set(dst + i, b);
            }
            self.gap_end = ge - move_size;
            self.gap_start = pos;
            assert(self.buffer@.subrange(0, pos as int) =~= old_buf.subrange(0, pos as int));
            assert(self.buffer@.subrange(dst as int, old_buf.len() as int) =~= old_buf.subrange(pos as int, gs as int) + old_buf.subrange(ge as int, old_buf.len() as int));
            assert(self@ =~= old(self)@);
        } else if pos > gs {
            let move_size = pos - gs;
            let mut i: usize = 0;
            while i < move_size
                invariant
                    gs <= ge <= old_buf.len(),
                    pos > gs,
                    pos <= len,
                    len == old_buf.len() - (ge - gs),
                    move_size == pos - gs,
                    ge + move_size <= old_buf.len(),
                    old_buf.len() <= usize::MAX,
                    i <= move_size,
                    self.buffer@.len() == old_buf.len(),
                    self.gap_start == gs,
                    self.gap_end == ge,
                    forall|k: int| 0 <= k < self.buffer@.len() && !(gs <= k < gs + i) ==> self.buffer@[k] == old_buf[k],
                    forall|k: int| gs <= k < gs + i ==> #[trigger] self.buffer@[k] == old_buf[k - gs + ge],
                decreases move_size - i,
            {
                let b = self.buffer[ge + i];
                self.buffer.set(gs + i, b);
                i = i + 1;
            }
            self.gap_start = gs + move_size;
            self.gap_end = ge + move_size;
            assert(self.buffer@.subrange(0, self.gap_start as int) =~= old_buf.subrange(0, gs as int) + old_buf.subrange(ge as int, ge + move_size));
            assert(self.buffer@.subrange(self.gap_end as int, old_buf.len() as int) =~= old_buf.subrange(ge + move_size, old_buf.len() as int));
            assert(self@ =~= old(self)@);
        }
    }

    /// Grows the gap to at least `needed` bytes without changing the text.
    fn ensure_gap(&mut self, needed: usize)
        requires
            old(self).wf(),
            old(self).capacity() + needed + 1024 <= usize::MAX,
        ensures
            final(self).wf(),
            final(self)@ == old(self)@,
            final(self).gap_pos() == old(self).gap_pos(),
            final(self).gap_len() >= needed,
            final(self).capacity() <= old(self).capacity() + needed + 1024,
    {
        if self.gap_size() >= needed {
            return;
        }
        let ghost old_buf = self.buffer@;
        let old_len = self.buffer.len();
        let gs = self.gap_start;
        let ge = self.gap_end;
        let short = needed - self.gap_size();
        let grow_by = if short > 1024 { short } else { 1024 };
        let new_len = old_len + grow_by;
        while self.buffer.len() < new_len
            invariant
                old_len <= self.buffer@.len() <= new_len,
                self.buffer@.subrange(0, old_len as int) == old_buf,
                old_buf.len() == old_len,
                self.gap_start == gs,
                self.gap_end == ge,
            decreases new_len - self.buffer@.len(),
        {
            let ghost before = self.buffer@;
            self.buffer.push(0u8);
            assert(self.buffer@.subrange(0, old_len as int) =~= before.subrange(0, old_len as int));
        }
        let after_gap = old_len - ge;
        let dst = new_len - after_gap;
        let mut i: usize = after_gap;
        while i > 0
            invariant
                gs <= ge <= old_len,
                after_gap == old_len - ge,
                dst == new_len - after_gap,
                new_len == old_len + grow_by,
                self.buffer@.len() == new_len,
                self.gap_start == gs,
                self.gap_end == ge,
                i <= after_gap,
                forall|k: int| 0 <= k < old_len && !(dst + i <= k < dst + after_gap) ==> self.buffer@[k] == old_buf[k],
                forall|k: int| dst + i <= k < dst + after_gap ==> #[trigger] self.buffer@[k] == old_buf[k - dst + ge],
            decreases i,
        {
            i = i - 1;
            let b = self.buffer[ge + i];
            self.buffer.set(dst + i, b);
        }
        self.gap_end = dst;
        assert(self.buffer@.subrange(0, gs as int) =~= old_buf.subrange(0, gs as int));
        assert(self.buffer@.subrange(dst as int, new_len as int) =~= old_buf.subrange(ge as int, old_len as int));
        assert(self@ =~= old(self)@);
    }

    /// Inserts `ch` at `min(pos, length)`.
    pub fn insert(&mut self, pos: usize, ch: u8)
        requires
            old(self).wf(),
            old(self).capacity() + 1025 <= usize::MAX,
        ensures
            final(self).wf(),
            final(self)@ == old(self)@.insert(if pos < old(self)@.len() { pos as int } else { old(self)@.len() as int }, ch),
            final(self).capacity() <= old(self).capacity() + 1025,
    {
        self.move_gap(pos);
        self.ensure_gap(1);
        let ghost before = self.buffer@;
        let gs = self.gap_start;
        self.buffer.set(gs, ch);
        self.gap_start = gs + 1;
        assert(self.buffer@.subrange(0, gs as int) =~= before.subrange(0, gs as int));
        assert(self.buffer@.subrange(self.gap_end as int, self.buffer@.len() as int) =~= before.subrange(self.gap_end as int, before.len() as int));
        assert(self@ =~= old(self)@.insert(gs as int, ch));
    }

    /// Inserts `data` at `min(pos, length)`.
    pub fn insert_str(&mut self, pos: usize, data: &[u8])
        requires
            old(self).wf(),
            old(self).capacity() + data@.len() + 1024 <= usize::MAX,
        ensures
            final(self).wf(),
            ({
                let p = if pos < old(self)@.len() { pos as int } else { old(self)@.len() as int };
                final(self)@ == old(self)@.subrange(0, p) + data@ + old(self)@.subrange(p, old(self)@.len() as int)
            }),
            final(self).capacity() <= old(self).capacity() + data@.len() + 1024,
    {
        self.move_gap(pos);
        self.ensure_gap(data.len());
        let ghost before = self.buffer@;
        let gs = self.gap_start;
        let ge = self.gap_end;
        let mut i: usize = 0;
        while i < data.len()
            invariant
                gs + data@.len() <= ge <= self.buffer@.len(),
                self.buffer@.len() == before.len(),
                self.gap_start == gs,
                self.gap_end == ge,
                i <= data@.len(),
                forall|k: int| 0 <= k < before.len() && !(gs <= k < gs + i) ==> self.buffer@[k] == before[k],
                forall|k: int| gs <= k < gs + i ==> #[trigger] self.buffer@[k] == data@[k - gs],
            decreases data@.len() - i,
        {
            self.buffer.set(gs + i, data[i]);
            i = i + 1;
        }
        self.gap_start = gs + data.len();
        assert(self.buffer@.subrange(0, self.gap_start as int) =~= before.subrange(0, gs as int) + data@);
        assert(self.buffer@.subrange(ge as int, self.buffer@.len() as int) =~= before.subrange(ge as int, before.len() as int));
        assert(self@ =~= old(self)@.subrange(0, gs as int) + data@ + old(self)@.subrange(gs as int, old(self)@.len() as int));
    }

    /// Removes the byte at `pos`; nothing happens past the end.
    pub fn delete(&mut self, pos: usize)
        requires
            old(self).wf(),
        ensures
            final(self).wf(),
            final(self).capacity() == old(self).capacity(),
            pos < old(self)@.len() ==> final(self)@ == old(self)@.remove(pos as int),
            pos >= old(self)@.len() ==> final(self)@ == old(self)@,
    {
        if pos >= self.content_len() {
            return;
        }
        self.move_gap(pos);
        let ghost before = *self;
        assert(self@.len() == self.gap_start + self.buffer@.len() - self.gap_end);
        self.gap_end = self.gap_end + 1;
        assert(self@ =~= before@.remove(pos as int));
    }

    /// Removes the bytes in `[start, min(end, length))`.
    pub fn delete_range(&mut self, start: usize, end: usize)
        requires
            old(self).wf(),
        ensures
            final(self).wf(),
            final(self).capacity() == old(self).capacity(),
            ({
                let e = if end < old(self)@.len() { end as int } else { old(self)@.len() as int };
                if start >= e {
                    final(self)@ == old(self)@
                } else {
                    final(self)@ == old(self)@.subrange(0, start as int) + old(self)@.subrange(e, old(self)@.len() as int)
                }
            }),
    {
        let len = self.content_len();
        let end = if end < len { end } else { len };
        if start >= end {
            return;
        }
        self.move_gap(start);
        let ghost before = *self;
        assert(self@.len() == self.gap_start + self.buffer@.len() - self.gap_end);
        self.gap_end = self.gap_end + (end - start);
        assert(self@ =~= before@.subrange(0, start as int) + before@.subrange(end as int, before@.len() as int));
    }

    /// The byte at `pos`, if any.
    pub fn get(&self, pos: usize) -> (r: Option<u8>)
        requires
            self.wf(),
        ensures
            pos < self@.len() ==> r == Some(self@[pos as int]),
            pos >= self@.len() ==> r is None,
    {
        if pos >= self.content_len() {
            return None;
        }
        assert(self@.len() == self.gap_start + self.buffer@.len() - self.gap_end);
        let idx = if pos < self.gap_start { pos } else { pos + self.gap_size() };
        Some(self.buffer[idx])
    }

    /// A copy of the text.
    pub fn to_bytes(&self) -> (r: Vec<u8>)
        requires
            self.wf(),
        ensures
            r@ == self@,
    {
        let mut result: Vec<u8> = Vec::new();
        let mut i: usize = 0;
        while i < self.gap_start
            invariant
                self.wf(),
                i <= self.gap_start,
                result@ == self.buffer@.subrange(0, i as int),
            decreases self.gap_start - i,
        {
            result.push(self.buffer[i]);
            i = i + 1;
            assert(result@ =~= self.buffer@.subrange(0, i as int));
        }
        let mut j: usize = self.gap_end;
        while j < self.buffer.len()
            invariant
                self.wf(),
                self.gap_end <= j <= self.buffer@.len(),
                result@ == self.buffer@.subrange(0, self.gap_start as int) + self.buffer@.subrange(self.gap_end as int, j as int),
            decreases self.buffer@.len() - j,
        {
            result.push(self.buffer[j]);
            j = j + 1;
            assert(result@ =~= self.buffer@.subrange(0, self.gap_start as int) + self.buffer@.subrange(self.gap_end as int, j as int));
        }
        result
    }
}

/// Reading back what was inserted: after inserting `ch` at a position inside
/// the text, `get` at that position returns `ch` and the text is one longer.
pub proof fn lemma_insert_then_get(text: Seq<u8>, pos: int, ch: u8)
    requires
        0 <= pos <= text.len(),
    ensures
        text.insert(pos, ch)[pos] == ch,
        text.insert(pos, ch).len() == text.len() + 1,
        text.insert(pos, ch).remove(pos) == text,
{
    assert(text.insert(pos, ch).remove(pos) =~= text);
}

} // verus!
