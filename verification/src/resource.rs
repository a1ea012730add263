//! File-descriptor-indexed handles to stdio-like endpoints.
//!
//! Descriptors 0, 1 and 2 are pre-opened to stdin, stdout and stderr.
//! Reading from stdin takes one key from the input buffer; writing to
//! stdout or stderr appends to the console, which the model keeps as a
//! byte log.

use vstd::prelude::*;

use crate::input::InputBuffer;

verus! {

/// The three standard streams.
#[derive(Clone, Copy, Debug, PartialEq, Eq, Structural)]
pub enum StdIO {
    /// Keyboard input.
    Stdin,
    /// Console output.
    Stdout,
    /// Console output for diagnostics.
    Stderr,
}

/// An endpoint a file descriptor can refer to.
#[derive(Clone, Copy, Debug, PartialEq, Eq, Structural)]
pub enum Resource {
    /// One of the standard streams.
    Console(StdIO),
    /// A sink that discards writes and yields no input.
    Null,
}

impl Resource {
    /// Reads into `buf`: stdin places one key (0 when none is buffered)
    /// into the first byte and reports that one byte was read; output
    /// streams cannot be read.
    pub fn read(&self, buf: &mut Vec<u8>, input: &mut InputBuffer) -> (r: Option<usize>)
        requires
            old(input).wf(),
        ensures
            final(input).wf(),
            match *self {
                Resource::Console(StdIO::Stdin) => {
                    if old(buf)@.len() == 0 {
                        r == Some(0usize) && *final(buf) == *old(buf) && *final(input) == *old(
                            input,
                        )
                    } else {
                        &&& r == Some(1usize)
                        &&& final(buf)@ == old(buf)@.update(
                            0,
                            if old(input).contents().len() > 0 {
                                old(input).contents()[0]
                            } else {
                                0u8
                            },
                        )
                        &&& final(input).contents() == if old(input).contents().len() > 0 {
                            old(input).contents().drop_first()
                        } else {
                            old(input).contents()
                        }
                    }
                },
                Resource::Console(_) => r is None && *final(buf) == *old(buf) && *final(input)
                    == *old(input),
                Resource::Null => r == Some(0usize) && *final(buf) == *old(buf) && *final(input)
                    == *old(input),
            },
    {
        match self {
            Resource::Console(stdio) => match stdio {
                StdIO::Stdin => {
                    if buf.len() == 0 {
                        Some(0)
                    } else {
                        let ch = input.get_char_as_u8();
                        let slot = &mut buf[0];
                        *slot = ch;
                        Some(1)
                    }
                },
                _ => None,
            },
            Resource::Null => Some(0),
        }
    }

    /// Writes `buf`: stdout and stderr append the bytes to the console
    /// and report the length; stdin cannot be written; the null sink
    /// swallows the bytes.
    pub fn write(&self, buf: &Vec<u8>, console: &mut Vec<u8>) -> (r: Option<usize>)
        requires
            old(console)@.len() + buf@.len() <= usize::MAX,
        ensures
            match *self {
                Resource::Console(StdIO::Stdin) => r is None && *final(console) == *old(console),
                Resource::Console(_) => r == Some(buf@.len() as usize) && final(console)@ == old(
                    console,
                )@ + buf@,
                Resource::Null => r == Some(buf@.len() as usize) && *final(console) == *old(
                    console,
                ),
            },
    {
        match self {
            Resource::Console(stdio) => match stdio {
                StdIO::Stdin => None,
                _ => {
                    console.extend_from_slice(buf.as_slice());
                    Some(buf.len())
                },
            },
            Resource::Null => Some(buf.len()),
        }
    }
}

/// One binding of a file descriptor to a resource.
#[derive(Clone, Copy, Debug, PartialEq, Eq, Structural)]
pub struct FdEntry {
    /// The file descriptor.
    pub fd: u8,
    /// The endpoint it refers to.
    pub resource: Resource,
}

/// The resource bound to `fd`, front-most binding first.
pub open spec fn spec_find_fd(s: Seq<FdEntry>, fd: u8) -> Option<Resource>
    decreases s.len(),
{
    if s.len() == 0 {
        None
    } else if s[0].fd == fd {
        Some(s[0].resource)
    } else {
        spec_find_fd(s.drop_first(), fd)
    }
}

/// A process's table of open file descriptors.
#[derive(Clone, Debug)]
pub struct ResourceSet {
    /// The bindings.
    pub handles: Vec<FdEntry>,
}

impl ResourceSet {
    /// The resource bound to `fd`, if any.
    pub open spec fn spec_get(self, fd: u8) -> Option<Resource> {
        spec_find_fd(self.handles@, fd)
    }

    /// The standard table: descriptors 0, 1, 2 bound to stdin, stdout
    /// and stderr.
    pub fn new() -> (r: ResourceSet)
        ensures
            r.spec_get(0) == Some(Resource::Console(StdIO::Stdin)),
            r.spec_get(1) == Some(Resource::Console(StdIO::Stdout)),
            r.spec_get(2) == Some(Resource::Console(StdIO::Stderr)),
            forall|fd: u8| fd >= 3 ==> #[trigger] r.spec_get(fd) is None,
            r.handles@.len() == 3,
    {
        let mut handles: Vec<FdEntry> = Vec::new();
        handles.push(FdEntry { fd: 0, resource: Resource::Console(StdIO::Stdin) });
        handles.push(FdEntry { fd: 1, resource: Resource::Console(StdIO::Stdout) });
        handles.push(FdEntry { fd: 2, resource: Resource::Console(StdIO::Stderr) });
        let r = ResourceSet { handles };
        proof {
            reveal_with_fuel(spec_find_fd, 4);
            assert(r.handles@.drop_first()[0].fd == 1);
            assert(r.handles@.drop_first().drop_first()[0].fd == 2);
            assert forall|fd: u8| fd >= 3 implies #[trigger] r.spec_get(fd) is None by {
                assert(r.handles@.drop_first().drop_first().drop_first().len() == 0);
            }
        }
        r
    }

    /// Finds the resource bound to `fd`.
    fn get(&self, fd: u8) -> (r: Option<Resource>)
        ensures
            r == self.spec_get(fd),
    {
        let n = self.handles.len();
        proof {
            assert(self.handles@.skip(0) =~= self.handles@);
        }
        for i in 0..n
            invariant
                n == self.handles@.len(),
                spec_find_fd(self.handles@.skip(i as int), fd) == self.spec_get(fd),
                forall|j: int| 0 <= j < i ==> self.handles@[j].fd != fd,
        {
            proof {
                assert(self.handles@.skip(i as int)[0] == self.handles@[i as int]);
                assert(self.handles@.skip(i as int).drop_first() =~= self.handles@.skip(
                    i + 1,
                ));
            }
            if self.handles[i].fd == fd {
                return Some(self.handles[i].resource);
            }
        }
        proof {
            assert(self.handles@.skip(n as int).len() == 0);
        }
        None
    }

    /// Opens `res` under the smallest descriptor not currently in
    /// use. At most 256 descriptors exist, so the caller must leave at
    /// least one free.
    pub fn open(&mut self, res: Resource) -> (r: u8)
        requires
            exists|fd: u8| (#[trigger] old(self).spec_get(fd)) is None,
        ensures
            old(self).spec_get(r) is None,
            forall|fd: u8| fd < r ==> (#[trigger] old(self).spec_get(fd)) is Some,
            final(self).spec_get(r) == Some(res),
            forall|fd: u8| fd != r ==> #[trigger] final(self).spec_get(fd) == old(
                self,
            ).spec_get(fd),
    {
        let mut fd: u8 = 0;
        loop
            invariant
                *self == *old(self),
                forall|f: u8| f < fd ==> (#[trigger] self.spec_get(f)) is Some,
                exists|f: u8| (#[trigger] self.spec_get(f)) is None,
            decreases 256 - fd,
        {
            proof {
                if fd == 255 && self.spec_get(255u8) is Some {
                    let f = choose|f: u8| (#[trigger] self.spec_get(f)) is None;
                    assert(self.spec_get(f) is Some);
                }
            }
            if self.get(fd).is_none() {
                let ghost old_handles = self.handles@;
                self.handles.insert(0, FdEntry { fd, resource: res });
                proof {
                    assert(self.handles@[0] == (FdEntry { fd, resource: res }));
                    assert(self.handles@.drop_first() =~= old_handles);
                    assert forall|f: u8| f != fd implies #[trigger] self.spec_get(f) == old(
                        self,
                    ).spec_get(f) by {
                        assert(self.handles@[0].fd != f);
                    }
                }
                return fd;
            }
            fd = fd + 1;
        }
    }

    /// Removes the binding of `fd`; reports whether one existed.
    /// Every other descriptor keeps its binding.
    pub fn close(&mut self, fd: u8) -> (r: bool)
        ensures
            r == (old(self).spec_get(fd) is Some),
            final(self).spec_get(fd) is None,
            forall|k: u8| k != fd ==> #[trigger] final(self).spec_get(k) == old(self).spec_get(
                k,
            ),
    {
        let ghost pred = keeps_fd(fd);
        let n = self.handles.len();
        let mut out: Vec<FdEntry> = Vec::new();
        let mut found = false;
        proof {
            reveal(Seq::filter);
            assert(self.handles@.take(0).filter(pred) =~= Seq::<FdEntry>::empty());
        }
        for i in 0..n
            invariant
                n == self.handles@.len(),
                found == (exists|j: int|
                    0 <= j < i && self.handles@[j].fd == fd),
                pred == keeps_fd(fd),
                out@ == self.handles@.take(i as int).filter(pred),
        {
            let e = self.handles[i];
            proof {
                let pre = self.handles@.take(i as int);
                let post = self.handles@.take(i + 1);
                assert(post.drop_last() =~= pre);
                assert(post.last() == self.handles@[i as int]);
                assert(post.filter(pred) == if pred(self.handles@[i as int]) {
                    pre.filter(pred).push(self.handles@[i as int])
                } else {
                    pre.filter(pred)
                }) by {
                    reveal(Seq::filter);
                }
            }
            if e.fd == fd {
                found = true;
            } else {
                out.push(e);
            }
        }
        proof {
            assert(self.handles@.take(n as int) =~= self.handles@);
            lemma_find_fd_exists(self.handles@, fd);
            assert(out@ == self.handles@.filter(pred));
            lemma_find_fd_exists(out@, fd);
            assert forall|j: int| 0 <= j < out@.len() implies out@[j].fd != fd by {
                self.handles@.lemma_filter_pred(pred, j);
            }
            assert forall|k: u8| k != fd implies #[trigger] spec_find_fd(out@, k)
                == self.spec_get(k) by {
                lemma_find_filter_fd(self.handles@, fd, k);
            }
        }
        self.handles = out;
        found
    }

    /// Reads from the resource bound to `fd` into `buf`; the byte count
    /// on success, −1 when the descriptor is unbound or unreadable.
    pub fn read(&self, fd: u8, buf: &mut Vec<u8>, input: &mut InputBuffer) -> (r: isize)
        requires
            old(input).wf(),
            old(buf)@.len() <= isize::MAX,
        ensures
            final(input).wf(),
            match self.spec_get(fd) {
                None => r == -1 && *final(buf) == *old(buf) && *final(input) == *old(input),
                Some(res) => match res {
                    Resource::Console(StdIO::Stdin) => {
                        if old(buf)@.len() == 0 {
                            r == 0 && *final(buf) == *old(buf) && *final(input) == *old(input)
                        } else {
                            &&& r == 1
                            &&& final(buf)@ == old(buf)@.update(
                                0,
                                if old(input).contents().len() > 0 {
                                    old(input).contents()[0]
                                } else {
                                    0u8
                                },
                            )
                            &&& final(input).contents() == if old(input).contents().len() > 0 {
                                old(input).contents().drop_first()
                            } else {
                                old(input).contents()
                            }
                        }
                    },
                    Resource::Console(_) => r == -1 && *final(buf) == *old(buf) && *final(input)
                        == *old(input),
                    Resource::Null => r == 0 && *final(buf) == *old(buf) && *final(input)
                        == *old(input),
                },
            },
    {
        match self.get(fd) {
            None => -1,
            Some(res) => match res.read(buf, input) {
                Some(count) => count as isize,
                None => -1,
            },
        }
    }

    /// Writes `buf` to the resource bound to `fd`; the byte count on
    /// success, −1 when the descriptor is unbound or unwritable.
    pub fn write(&self, fd: u8, buf: &Vec<u8>, console: &mut Vec<u8>) -> (r: isize)
        requires
            old(console)@.len() + buf@.len() <= usize::MAX,
            buf@.len() <= isize::MAX,
        ensures
            match self.spec_get(fd) {
                None => r == -1 && *final(console) == *old(console),
                Some(res) => match res {
                    Resource::Console(StdIO::Stdin) => r == -1 && *final(console) == *old(
                        console,
                    ),
                    Resource::Console(_) => r == buf@.len() && final(console)@ == old(console)@
                        + buf@,
                    Resource::Null => r == buf@.len() && *final(console) == *old(console),
                },
            },
    {
        match self.get(fd) {
            None => -1,
            Some(res) => match res.write(buf, console) {
                Some(count) => count as isize,
                None => -1,
            },
        }
    }
}

/// Appending a binding for another descriptor does not change what a
/// lookup of `fd` finds when it finds nothing.
proof fn lemma_find_fd_push_other(s: Seq<FdEntry>, e: FdEntry, fd: u8)
    requires
        e.fd != fd,
        spec_find_fd(s, fd) is None,
    ensures
        spec_find_fd(s.push(e), fd) is None,
    decreases s.len(),
{
    reveal_with_fuel(spec_find_fd, 2);
    if s.len() == 0 {
        assert(s.push(e)[0] == e);
        assert(s.push(e).drop_first() =~= Seq::<FdEntry>::empty());
        assert(spec_find_fd(Seq::<FdEntry>::empty(), fd) is None);
    } else {
        assert(s.push(e)[0] == s[0]);
        assert(s.push(e).drop_first() =~= s.drop_first().push(e));
        lemma_find_fd_push_other(s.drop_first(), e, fd);
        assert(spec_find_fd(s.push(e), fd) == spec_find_fd(s.drop_first().push(e), fd));
    }
}

/// The bindings that survive closing `fd`.
pub open spec fn keeps_fd(fd: u8) -> spec_fn(FdEntry) -> bool {
    |e: FdEntry| e.fd != fd
}

/// Dropping the bindings of one descriptor leaves every other
/// descriptor's lookup unchanged.
proof fn lemma_find_filter_fd(s: Seq<FdEntry>, fd: u8, k: u8)
    requires
        k != fd,
    ensures
        spec_find_fd(s.filter(keeps_fd(fd)), k) == spec_find_fd(s, k),
    decreases s.len(),
{
    reveal(Seq::filter);
    reveal_with_fuel(spec_find_fd, 2);
    let pred = keeps_fd(fd);
    if s.len() == 0 {
    } else {
        let d = s.drop_last();
        let last = s.last();
        lemma_find_filter_fd(d, fd, k);
        assert(s =~= d + seq![last]);
        lemma_find_fd_concat(d, seq![last], k);
        assert(spec_find_fd(seq![last], k) == if last.fd == k {
            Some(last.resource)
        } else {
            None
        }) by {
            assert(seq![last].drop_first() =~= Seq::<FdEntry>::empty());
        }
        if pred(last) {
            assert(s.filter(pred) == d.filter(pred).push(last));
            assert(d.filter(pred).push(last) =~= d.filter(pred) + seq![last]);
            lemma_find_fd_concat(d.filter(pred), seq![last], k);
        } else {
            assert(s.filter(pred) == d.filter(pred));
            assert(last.fd == fd);
        }
    }
}

/// A lookup in a concatenation finds the front part's binding first.
proof fn lemma_find_fd_concat(a: Seq<FdEntry>, b: Seq<FdEntry>, fd: u8)
    ensures
        spec_find_fd(a + b, fd) == match spec_find_fd(a, fd) {
            Some(r) => Some(r),
            None => spec_find_fd(b, fd),
        },
    decreases a.len(),
{
    reveal_with_fuel(spec_find_fd, 2);
    if a.len() == 0 {
        assert(a + b =~= b);
    } else {
        assert((a + b)[0] == a[0]);
        assert((a + b).drop_first() =~= a.drop_first() + b);
        lemma_find_fd_concat(a.drop_first(), b, fd);
    }
}

/// A lookup finds a binding exactly when one with that descriptor
/// exists.
proof fn lemma_find_fd_exists(s: Seq<FdEntry>, fd: u8)
    ensures
        (spec_find_fd(s, fd) is Some) == exists|j: int| 0 <= j < s.len() && s[j].fd == fd,
    decreases s.len(),
{
    reveal_with_fuel(spec_find_fd, 2);
    if s.len() == 0 {
    } else if s[0].fd == fd {
        assert(s[0].fd == fd);
    } else {
        lemma_find_fd_exists(s.drop_first(), fd);
        if spec_find_fd(s, fd) is Some {
            let j = choose|j: int| 0 <= j < s.drop_first().len() && s.drop_first()[j].fd == fd;
            assert(s[j + 1].fd == fd);
        } else {
            if exists|j: int| 0 <= j < s.len() && s[j].fd == fd {
                let j = choose|j: int| 0 <= j < s.len() && s[j].fd == fd;
                assert(j != 0);
                assert(s.drop_first()[j - 1].fd == fd);
            }
        }
    }
}

} // verus!
