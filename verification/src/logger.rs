//! The buffer of a logger that sends its logs to the bot's owner: writes
//! are checked to be UTF-8 and kept up to the buffer's size, and what was
//! kept is taken out to be sent.
use vstd::prelude::*;
use vstd::string::StringExecFns;
use crate::text::{decimal, push_decimal, push_str};

verus! {

/// Whether bytes are valid UTF-8 (`std::str::from_utf8`).
#[verifier::external_body]
pub(crate) fn is_utf8(bytes: &[u8]) -> (r: bool)
    ensures
        r == vstd::utf8::valid_utf8(bytes@),
{
    std::str::from_utf8(bytes).is_ok()
}

/// Bytes as `{:?}` writes a byte slice: `[1, 2, 3]`.
pub open spec fn bytes_debug_text(bytes: Seq<u8>) -> Seq<char> {
    seq!['['] + bytes_list_text(bytes) + seq![']']
}

/// The bytes in decimal, separated by `, `.
pub open spec fn bytes_list_text(bytes: Seq<u8>) -> Seq<char>
    decreases bytes.len(),
{
    if bytes.len() == 0 {
        seq![]
    } else if bytes.len() == 1 {
        decimal(bytes[0] as nat)
    } else {
        bytes_list_text(bytes.drop_last()) + ", "@ + decimal(bytes.last() as nat)
    }
}

/// The error given for a write that is not UTF-8.
pub fn malformed_string_err(buf: &[u8]) -> (r: String)
    ensures
        r@ == "Non-UTF-8 bytes were passed into DiscordLogger's write(). Investigate this. Bytes: "@
            + bytes_debug_text(buf@) + "."@,
{
    let mut s = String::from_str("Non-UTF-8 bytes were passed into DiscordLogger's write(). Investigate this. Bytes: [");
    let ghost start = s@;
    proof {
        reveal_strlit("Non-UTF-8 bytes were passed into DiscordLogger's write(). Investigate this. Bytes: [");
        reveal_strlit("Non-UTF-8 bytes were passed into DiscordLogger's write(). Investigate this. Bytes: ");
    }
    let mut i: usize = 0;
    while i < buf.len()
        invariant
            i <= buf@.len(),
            s@ == start + bytes_list_text(buf@.take(i as int)),
        decreases buf@.len() - i,
    {
        if i > 0 {
            push_str(&mut s, ", ");
        }
        push_decimal(&mut s, buf[i] as u64);
        proof {
            let t = buf@.take(i + 1);
            assert(t.drop_last() =~= buf@.take(i as int));
            if i == 0 {
                assert(bytes_list_text(buf@.take(0)) =~= Seq::<char>::empty());
                assert(t.len() == 1);
            }
        }
        i = i + 1;
    }
    push_str(&mut s, "].");
    proof {
        assert(buf@.take(i as int) =~= buf@);
        reveal_strlit("].");
        reveal_strlit(".");
        let lit0 = "Non-UTF-8 bytes were passed into DiscordLogger's write(). Investigate this. Bytes: "@;
        assert(start =~= lit0 + seq!['[']);
        assert(s@ =~= lit0 + (seq!['['] + bytes_list_text(buf@) + seq![']']) + "."@);
        assert(s@ =~= "Non-UTF-8 bytes were passed into DiscordLogger's write(). Investigate this. Bytes: "@
            + bytes_debug_text(buf@) + "."@);
    }
    s
}

/// The logs written and not sent yet, at most `buffer_size` bytes.
pub struct LogBuffer {
    buffer_size: usize,
    write_buffer: Vec<u8>,
}

impl LogBuffer {
    pub closed spec fn wf(&self) -> bool {
        self.write_buffer@.len() <= self.buffer_size
    }

    /// The bytes kept so far.
    pub closed spec fn contents(&self) -> Seq<u8> {
        self.write_buffer@
    }

    pub closed spec fn size(&self) -> nat {
        self.buffer_size as nat
    }

    /// An empty buffer for `buffer_size` bytes.
    pub fn new(buffer_size: usize) -> (r: Self)
        ensures
            r.wf(),
            r.contents() == Seq::<u8>::empty(),
            r.size() == buffer_size,
    {
        LogBuffer { buffer_size, write_buffer: Vec::new() }
    }

    /// Writes some bytes: an error where they are not UTF-8, else as many
    /// of them as there is room for are kept, and their count returned.
    pub fn write(&mut self, buf: &[u8]) -> (r: Result<usize, String>)
        requires
            old(self).wf(),
        ensures
            final(self).wf(),
            final(self).size() == old(self).size(),
            match r {
                Err(m) => !vstd::utf8::valid_utf8(buf@) && final(self).contents() == old(self).contents() && m@
                    == "Non-UTF-8 bytes were passed into DiscordLogger's write(). Investigate this. Bytes: "@
                    + bytes_debug_text(buf@) + "."@,
                Ok(n) => vstd::utf8::valid_utf8(buf@) && n == (if old(self).size() - old(self).contents().len()
                    < buf@.len() {
                    old(self).size() - old(self).contents().len()
                } else {
                    buf@.len() as int
                }) && final(self).contents() == old(self).contents() + buf@.take(n as int),
            },
    {
        if !is_utf8(buf) {
            return Err(malformed_string_err(buf));
        }
        let space_left = self.buffer_size - self.write_buffer.len();
        let bytes_to_write = if space_left < buf.len() { space_left } else { buf.len() };
        let ghost before = self.write_buffer@;
        let ghost size0 = self.buffer_size;
        let mut i: usize = 0;
        while i < bytes_to_write
            invariant
                self.buffer_size == size0,
                i <= bytes_to_write <= buf@.len(),
                before.len() + bytes_to_write <= self.buffer_size,
                self.write_buffer@ == before + buf@.take(i as int),
            decreases bytes_to_write - i,
        {
            self.write_buffer.push(buf[i]);
            assert(buf@.take(i + 1) =~= buf@.take(i as int).push(buf@[i as int]));
            i = i + 1;
        }
        Ok(bytes_to_write)
    }

    /// Takes out everything kept, to be sent; `None` where nothing is.
    pub fn take_all(&mut self) -> (r: Option<Vec<u8>>)
        requires
            old(self).wf(),
        ensures
            final(self).wf(),
            final(self).size() == old(self).size(),
            final(self).contents() == Seq::<u8>::empty(),
            match r {
                Some(v) => old(self).contents().len() > 0 && v@ == old(self).contents(),
                None => old(self).contents().len() == 0,
            },
    {
        if self.write_buffer.len() == 0 {
            return None;
        }
        let mut taken: Vec<u8> = Vec::new();
        std::mem::swap(&mut taken, &mut self.write_buffer);
        Some(taken)
    }
}

} // verus!
