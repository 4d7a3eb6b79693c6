//! Foreground-window tracking.
//!
//! Two halves. The capturing side forwards the handle of the window that came to
//! the front, stamped with its clock. The storing side resolves that handle to a
//! process, an executable name and, if it may, a window title.

use vstd::prelude::*;

use crate::text::{chars_of, string_of};
use crate::utf16::decode;

verus! {

/// The event by which Windows tells that a window came to the front.
pub const EVENT_SYSTEM_FOREGROUND: u32 = 0x0003;

/// The event is about a window coming to the front, and not about one of the many
/// objects inside a window.
pub fn is_foreground_change(event: u32, hwnd: isize, id_object: i32, id_child: i32) -> (r: bool)
    ensures
        r == (event == EVENT_SYSTEM_FOREGROUND && hwnd != 0 && id_object == 0 && id_child == 0),
{
    event == EVENT_SYSTEM_FOREGROUND && id_object == 0 && id_child == 0 && hwnd != 0
}

// ---- names ------------------------------------------------------------------------

/// The character parts directories.
pub open spec fn is_separator(c: char) -> bool {
    c == '\\' || c == '/'
}

/// What stands behind the last separator.
pub open spec fn last_component(path: Seq<char>) -> Seq<char>
    decreases path.len(),
{
    if path.len() == 0 || is_separator(path.last()) {
        seq![]
    } else {
        last_component(path.drop_last()).push(path.last())
    }
}

/// The executable name in a path. The full path would leak the user's profile
/// directory into the dataset for no analytical benefit.
pub fn executable_name(path: &str) -> (name: String)
    ensures
        name@ == last_component(path@),
{
    let chars = chars_of(path);
    let len: usize = chars.len();
    let mut start: usize = len;
    assert(chars@.subrange(len as int, len as int) =~= seq![]);
    proof {
        assert(chars@.take(len as int) =~= chars@);
        assert(last_component(chars@.take(len as int)) + chars@.skip(len as int)
            =~= last_component(chars@));
    }
    while start > 0 && chars[start - 1] != '\\' && chars[start - 1] != '/'
        invariant
            start <= len == chars@.len(),
            last_component(chars@.take(start as int)) + chars@.skip(start as int)
                == last_component(chars@),
        decreases start,
    {
        proof {
            let t = chars@.take(start as int);
            assert(t.drop_last() =~= chars@.take(start - 1));
            assert(t.last() == chars@[start - 1]);
            assert(chars@.skip(start - 1) =~= seq![t.last()] + chars@.skip(start as int));
            assert(last_component(t.drop_last()).push(t.last()) + chars@.skip(start as int)
                =~= last_component(chars@.take(start - 1)) + chars@.skip(start - 1));
        }
        start = start - 1;
    }
    proof {
        let t = chars@.take(start as int);
        if start > 0 {
            assert(t.last() == chars@[start - 1]);
        }
        assert(last_component(t) =~= seq![]);
        assert(chars@.skip(start as int) =~= last_component(chars@));
        assert(chars@.subrange(start as int, len as int) =~= chars@.skip(start as int));
    }
    string_of(&chars.as_slice()[start..len])
}

// ---- resolving --------------------------------------------------------------------

/// What the storing side asks Windows next about a window.
#[derive(Clone, Copy, Debug, PartialEq, Eq, Structural)]
pub enum Ask {
    /// Which process owns the window. 0 stands for none.
    Pid,
    /// The path of that process's image.
    Image(u32),
    /// How long the window's title is.
    TitleLen,
    /// The title, into a buffer of that many units.
    Title(usize),
    /// Nothing more.
    Done,
}

/// A window being resolved. Titles are asked for only where they are wanted: not
/// read and then discarded.
pub struct Resolution {
    want_title: bool,
    pid: Option<u32>,
    exe: Option<String>,
    title: Option<String>,
    next: Ask,
}

/// What is known of a window.
#[verifier::ext_equal]
pub struct Resolved {
    pub pid: Option<u32>,
    pub exe: Option<Seq<char>>,
    pub title: Option<Seq<char>>,
}

/// The characters of a string that may be missing.
pub open spec fn text_of(s: Option<String>) -> Option<Seq<char>> {
    match s {
        Some(t) => Some(t@),
        None => None,
    }
}

/// What is asked once the process is settled.
pub open spec fn ask_behind_process(want_title: bool) -> Ask {
    if want_title {
        Ask::TitleLen
    } else {
        Ask::Done
    }
}

impl Resolution {
    pub closed spec fn want_title_spec(&self) -> bool {
        self.want_title
    }

    pub closed spec fn next_spec(&self) -> Ask {
        self.next
    }

    pub closed spec fn known(&self) -> Resolved {
        Resolved { pid: self.pid, exe: text_of(self.exe), title: text_of(self.title) }
    }

    /// Where titles are not wanted none is asked for, and none is known.
    pub open spec fn wf(&self) -> bool {
        !self.want_title_spec() ==> {
            &&& self.next_spec() != Ask::TitleLen
            &&& !(self.next_spec() is Title)
            &&& self.known().title is None
        }
    }

    /// Starts on a window. Of no window nothing is asked.
    pub fn start(hwnd: isize, want_title: bool) -> (r: Self)
        ensures
            r.wf(),
            r.want_title_spec() == want_title,
            r.known() == (Resolved { pid: None, exe: None, title: None }),
            r.next_spec() == if hwnd == 0 {
                Ask::Done
            } else {
                Ask::Pid
            },
    {
        let next = if hwnd == 0 {
            Ask::Done
        } else {
            Ask::Pid
        };
        Resolution { want_title, pid: None, exe: None, title: None, next }
    }

    /// What to ask next.
    pub fn next(&self) -> (a: Ask)
        ensures
            a == self.next_spec(),
    {
        self.next
    }

    fn behind_process(&self) -> (a: Ask)
        ensures
            a == ask_behind_process(self.want_title_spec()),
    {
        if self.want_title {
            Ask::TitleLen
        } else {
            Ask::Done
        }
    }

    /// The process that owns the window.
    pub fn on_pid(&mut self, pid: u32)
        requires
            old(self).wf(),
            old(self).next_spec() == Ask::Pid,
        ensures
            final(self).wf(),
            final(self).want_title_spec() == old(self).want_title_spec(),
            final(self).known() == (Resolved {
                pid: if pid == 0 {
                    None
                } else {
                    Some(pid)
                },
                ..old(self).known()
            }),
            final(self).next_spec() == if pid == 0 {
                ask_behind_process(old(self).want_title_spec())
            } else {
                Ask::Image(pid)
            },
    {
        if pid == 0 {
            self.pid = None;
            self.next = self.behind_process();
        } else {
            self.pid = Some(pid);
            self.next = Ask::Image(pid);
        }
    }

    /// The path of the process's image, where it could be read.
    pub fn on_image(&mut self, path: Option<Vec<u16>>)
        requires
            old(self).wf(),
            old(self).next_spec() is Image,
        ensures
            final(self).wf(),
            final(self).want_title_spec() == old(self).want_title_spec(),
            final(self).known() == (Resolved {
                exe: match path {
                    Some(units) => Some(last_component(crate::utf16::decoded(units@))),
                    None => None,
                },
                ..old(self).known()
            }),
            final(self).next_spec() == ask_behind_process(old(self).want_title_spec()),
    {
        self.exe = match path {
            Some(units) => {
                let full = decode(units.as_slice());
                Some(executable_name(full.as_str()))
            },
            None => None,
        };
        self.next = self.behind_process();
    }

    /// The length of the title. An empty one is none.
    pub fn on_title_len(&mut self, len: i32)
        requires
            old(self).wf(),
            old(self).next_spec() == Ask::TitleLen,
        ensures
            final(self).wf(),
            final(self).want_title_spec() == old(self).want_title_spec(),
            final(self).known() == old(self).known(),
            final(self).next_spec() == if len <= 0 {
                Ask::Done
            } else {
                Ask::Title((len + 1) as usize)
            },
    {
        // One more, for the zero behind the title.
        self.next = if len <= 0 {
            Ask::Done
        } else {
            Ask::Title(len as usize + 1)
        };
    }

    /// The title: the first `n` units of what was read, where any were.
    pub fn on_title(&mut self, n: i32, units: &Vec<u16>)
        requires
            old(self).wf(),
            old(self).next_spec() is Title,
            n <= units@.len(),
        ensures
            final(self).wf(),
            final(self).want_title_spec() == old(self).want_title_spec(),
            final(self).known() == (Resolved {
                title: if n <= 0 {
                    None
                } else {
                    Some(crate::utf16::decoded(units@.take(n as int)))
                },
                ..old(self).known()
            }),
            final(self).next_spec() == Ask::Done,
    {
        self.title = if n <= 0 {
            None
        } else {
            Some(decode(&units.as_slice()[0..n as usize]))
        };
        self.next = Ask::Done;
        proof {
            if n > 0 {
                assert(units@.subrange(0, n as int) =~= units@.take(n as int));
            }
        }
    }

    /// What is known: process, executable name, title.
    pub fn resolve(self) -> (r: (Option<u32>, Option<String>, Option<String>))
        ensures
            r.0 == self.known().pid,
            text_of(r.1) == self.known().exe,
            text_of(r.2) == self.known().title,
    {
        (self.pid, self.exe, self.title)
    }
}

// ---- laws -------------------------------------------------------------------------

/// An executable name holds no directory.
pub proof fn law_executable_name_has_no_separator(path: Seq<char>)
    ensures
        forall|i: int|
            0 <= i < last_component(path).len() ==> !is_separator(
                #[trigger] last_component(path)[i],
            ),
        crate::text::ends_with_spec(path, last_component(path)),
    decreases path.len(),
{
    if path.len() > 0 && !is_separator(path.last()) {
        law_executable_name_has_no_separator(path.drop_last());
        let rest = last_component(path.drop_last());
        let name = last_component(path);
        assert(path.skip(path.len() - name.len()) =~= name) by {
            assert(path.drop_last().skip(path.len() - 1 - rest.len()) == rest);
            assert forall|i: int| 0 <= i < name.len() implies path.skip(
                path.len() - name.len(),
            )[i] == name[i] by {
                if i < rest.len() {
                    assert(path.drop_last().skip(path.len() - 1 - rest.len())[i] == rest[i]);
                }
            }
        }
    } else {
        assert(path.skip(path.len() as int) =~= seq![]);
    }
}

/// Whatever directories stand in front of it, the name of an executable is what stands
/// behind the last separator.
pub proof fn law_directories_are_left_out(dir: Seq<char>, separator: char, name: Seq<char>)
    requires
        separator == '/' || separator == '\\',
        forall|i: int| 0 <= i < name.len() ==> #[trigger] name[i] != '/' && name[i] != '\\',
    ensures
        last_component(dir.push(separator) + name) == name,
        last_component(name) == name,
    decreases name.len(),
{
    let path = dir.push(separator) + name;
    if name.len() == 0 {
        assert(path =~= dir.push(separator));
        assert(last_component(path) =~= name);
    } else {
        let shorter = name.drop_last();
        assert forall|i: int| 0 <= i < shorter.len() implies #[trigger] shorter[i] != '/'
            && shorter[i] != '\\' by {
            assert(shorter[i] == name[i]);
        }
        law_directories_are_left_out(dir, separator, shorter);
        assert(path.drop_last() =~= dir.push(separator) + shorter);
        assert(name[name.len() - 1] != '/' && name[name.len() - 1] != '\\');
        assert(shorter.push(name.last()) =~= name);
    }
}

/// A title is asked for just where titles are wanted.
pub proof fn law_titles_are_only_asked_for_where_wanted(want_title: bool)
    ensures
        ask_behind_process(want_title) is TitleLen <==> want_title,
        ask_behind_process(want_title) is Done <==> !want_title,
{
}

} // verus!
