//! User-side standard streams: thin handles whose operations are the
//! Read and Write syscalls on descriptors 0, 1 and 2. In the model the
//! syscall boundary is a call into the process manager.

use vstd::prelude::*;
use vstd::string::StringSliceAdditionalSpecFns;

use crate::input::{KEY_DELETE, KEY_ENTER};
use crate::manager::ProcessManager;
use crate::process::ProgramStatus;
use crate::resource::{Resource, StdIO};

verus! {

/// The line the reader produces from the buffered keys: zero bytes
/// (an empty buffer's reading) are skipped, delete removes the last
/// character, and the first carriage return ends the line without
/// being kept.
pub open spec fn spec_read_line(line: Seq<char>, keys: Seq<u8>) -> Seq<char>
    decreases keys.len(),
{
    if keys.len() == 0 {
        line
    } else if keys[0] == KEY_ENTER {
        line
    } else if keys[0] == 0 {
        spec_read_line(line, keys.drop_first())
    } else if keys[0] == KEY_DELETE {
        spec_read_line(
            if line.len() > 0 {
                line.drop_last()
            } else {
                line
            },
            keys.drop_first(),
        )
    } else {
        spec_read_line(line.push(keys[0] as char), keys.drop_first())
    }
}

/// Handle on descriptor 0.
#[derive(Clone, Copy, Debug, PartialEq, Eq, Structural)]
pub struct Stdin;

/// Handle on descriptor 1.
#[derive(Clone, Copy, Debug, PartialEq, Eq, Structural)]
pub struct Stdout;

/// Handle on descriptor 2.
#[derive(Clone, Copy, Debug, PartialEq, Eq, Structural)]
pub struct Stderr;

/// The stdin handle.
pub fn stdin() -> (r: Stdin)
    ensures
        r == Stdin,
{
    Stdin
}

/// The stdout handle.
pub fn stdout() -> (r: Stdout)
    ensures
        r == Stdout,
{
    Stdout
}

/// The stderr handle.
pub fn stderr() -> (r: Stderr)
    ensures
        r == Stderr,
{
    Stderr
}

impl Stdin {
    /// Reads one byte from descriptor 0 through `buf` and returns it
    /// as a character; `None` when the descriptor yields nothing.
    pub fn read_char_with_buf(
        &self,
        m: &mut ProcessManager,
        buf: &mut Vec<u8>,
    ) -> (r: Option<char>)
        requires
            old(m).inv(),
            old(m).cur().status != ProgramStatus::Dead,
            old(buf)@.len() <= isize::MAX,
        ensures
            final(m).inv(),
            *final(m) == (ProcessManager { input: final(m).input, ..*old(m) }),
            ({
                let did = old(m).cur().proc_data->Some_0.data_id as int;
                let set = old(m).shared@[did].resources;
                if set.spec_get(0) == Some(Resource::Console(StdIO::Stdin)) && old(
                    buf,
                )@.len() > 0 {
                    let key = if old(m).input.contents().len() > 0 {
                        old(m).input.contents()[0]
                    } else {
                        0u8
                    };
                    &&& r == Some(key as char)
                    &&& final(buf)@ == old(buf)@.update(0, key)
                    &&& final(m).input.contents() == if old(m).input.contents().len() > 0 {
                        old(m).input.contents().drop_first()
                    } else {
                        old(m).input.contents()
                    }
                } else {
                    r is None
                }
            }),
    {
        let count = m.read(0, buf);
        if count > 0 {
            Some(buf[0] as char)
        } else {
            None
        }
    }

    /// Reads one line: keys are taken from the input buffer through
    /// descriptor 0 until a carriage return, with delete editing the
    /// line. Spins while the buffer is empty, so a line is only
    /// produced once one was typed.
    pub fn read_line(&self, m: &mut ProcessManager) -> (r: String)
        requires
            old(m).inv(),
            old(m).cur().status != ProgramStatus::Dead,
            old(m).shared@[old(m).cur().proc_data->Some_0.data_id as int].resources.spec_get(0)
                == Some(Resource::Console(StdIO::Stdin)),
            old(m).input.contents().contains(KEY_ENTER),
        ensures
            final(m).inv(),
            r@ == spec_read_line(Seq::<char>::empty(), old(m).input.contents()),
            final(m).input.contents() == crate::input::spec_line_rest(old(m).input.contents()),
    {
        let mut line = String::new();
        let mut nchars: usize = 0;
        let mut buf: Vec<u8> = vec![0u8; 1];
        loop
            invariant
                old(m).inv(),
                m.inv(),
                m.cur().status != ProgramStatus::Dead,
                m.shared@[m.cur().proc_data->Some_0.data_id as int].resources.spec_get(0)
                    == Some(Resource::Console(StdIO::Stdin)),
                m.input.contents().contains(KEY_ENTER),
                buf@.len() == 1,
                nchars == line@.len(),
                nchars + m.input.contents().len() <= old(m).input.contents().len(),
                spec_read_line(line@, m.input.contents()) == spec_read_line(
                    Seq::<char>::empty(),
                    old(m).input.contents(),
                ),
                crate::input::spec_line_rest(m.input.contents())
                    == crate::input::spec_line_rest(old(m).input.contents()),
            decreases m.input.contents().len(),
        {
            let ghost pre = m.input.contents();
            if let Some(ch) = self.read_char_with_buf(m, &mut buf) {
                proof {
                    if pre.len() > 0 {
                        assert(pre.drop_first() == m.input.contents());
                    }
                }
                if ch == '\u{0}' {
                    proof {
                        if pre.len() == 0 {
                            assert(pre.contains(KEY_ENTER));
                            assert(false);
                        }
                        if !(pre.drop_first().contains(KEY_ENTER)) {
                            let i = choose|i: int| 0 <= i < pre.len() && pre[i] == KEY_ENTER;
                            assert(pre.drop_first()[i - 1] == KEY_ENTER);
                        }
                    }
                } else if ch == '\u{d}' {
                    proof {
                        assert(pre[0] == KEY_ENTER);
                    }
                    return line;
                } else if ch == '\u{7f}' {
                    if nchars > 0 {
                        line.pop();
                        nchars = nchars - 1;
                    }
                    proof {
                        assert(pre[0] == KEY_DELETE);
                        if !(pre.drop_first().contains(KEY_ENTER)) {
                            let i = choose|i: int| 0 <= i < pre.len() && pre[i] == KEY_ENTER;
                            assert(pre.drop_first()[i - 1] == KEY_ENTER);
                        }
                    }
                } else {
                    line.push(ch);
                    nchars = nchars + 1;
                    proof {
                        assert(pre[0] != KEY_ENTER && pre[0] != 0 && pre[0] != KEY_DELETE);
                        assert(ch == pre[0] as char);
                        if !(pre.drop_first().contains(KEY_ENTER)) {
                            let i = choose|i: int| 0 <= i < pre.len() && pre[i] == KEY_ENTER;
                            assert(pre.drop_first()[i - 1] == KEY_ENTER);
                        }
                    }
                }
            }
        }
    }
}

impl Stdout {
    /// Writes `s` to descriptor 1; when the descriptor is bound to
    /// stdout, the bytes land on the console.
    pub fn write(&self, m: &mut ProcessManager, s: &str)
        requires
            old(m).inv(),
            old(m).cur().status != ProgramStatus::Dead,
            s.spec_bytes().len() <= isize::MAX,
            old(m).console@.len() + s.spec_bytes().len() <= usize::MAX,
        ensures
            final(m).inv(),
            ({
                let did = old(m).cur().proc_data->Some_0.data_id as int;
                let set = old(m).shared@[did].resources;
                set.spec_get(1) == Some(Resource::Console(StdIO::Stdout)) ==> final(m).console@ == old(m).console@ + s.spec_bytes()
            }),
    {
        let bytes = vstd::slice::slice_to_vec(s.as_bytes());
        let _ = m.write(1, &bytes);
    }
}

impl Stderr {
    /// Writes `s` to descriptor 2; when the descriptor is bound to
    /// stderr, the bytes land on the console.
    pub fn write(&self, m: &mut ProcessManager, s: &str)
        requires
            old(m).inv(),
            old(m).cur().status != ProgramStatus::Dead,
            s.spec_bytes().len() <= isize::MAX,
            old(m).console@.len() + s.spec_bytes().len() <= usize::MAX,
        ensures
            final(m).inv(),
            ({
                let did = old(m).cur().proc_data->Some_0.data_id as int;
                let set = old(m).shared@[did].resources;
                set.spec_get(2) == Some(Resource::Console(StdIO::Stderr)) ==> final(m).console@ == old(m).console@ + s.spec_bytes()
            }),
    {
        let bytes = vstd::slice::slice_to_vec(s.as_bytes());
        let _ = m.write(2, &bytes);
    }
}

} // verus!
