use vstd::prelude::*;
use vstd::std_specs::iter::IteratorSpec;

verus! {

broadcast use vstd::string::group_string_axioms;

/// Relies on `String::push`: the character is appended at the end.
pub assume_specification[ String::push ](s: &mut String, ch: char)
    ensures
        final(s)@ == old(s)@.push(ch),
;

/// Whether `c` ends a line: a line feed or a carriage return.
pub open spec fn is_line_break(c: char) -> bool {
    c == '\n' || c == '\r'
}

/// The text of `s` up to, and without, its first line break.
pub open spec fn first_line(s: Seq<char>) -> Seq<char>
    decreases s.len(),
{
    if s.len() == 0 || is_line_break(s[0]) {
        Seq::empty()
    } else {
        seq![s[0]] + first_line(s.drop_first())
    }
}

/// The field name `data: ` that starts each data line.
pub open spec fn data_prefix() -> Seq<char> {
    seq!['d', 'a', 't', 'a', ':', ' ']
}

/// The field name `id: `.
pub open spec fn id_prefix() -> Seq<char> {
    seq!['i', 'd', ':', ' ']
}

/// The field name `event: `.
pub open spec fn event_prefix() -> Seq<char> {
    seq!['e', 'v', 'e', 'n', 't', ':', ' ']
}

/// The data lines of a frame once the first `data: ` has been written: each line
/// break of `s` (`\r\n`, `\n` or `\r`) ends one data line and starts the next, so
/// that every line of `s`, an empty one too, gets a `data: ` line of its own.
/// `after_cr` tells whether the character before `s` was a `\r`, in which case a
/// leading `\n` completes that break.
pub open spec fn data_lines(s: Seq<char>, after_cr: bool) -> Seq<char>
    decreases s.len(),
{
    if s.len() == 0 {
        Seq::empty()
    } else if after_cr && s[0] == '\n' {
        data_lines(s.drop_first(), false)
    } else if is_line_break(s[0]) {
        seq!['\n'] + data_prefix() + data_lines(s.drop_first(), s[0] == '\r')
    } else {
        seq![s[0]] + data_lines(s.drop_first(), false)
    }
}

/// An optional field line: `prefix`, the first line of the value, and a line feed;
/// nothing when the value is absent.
pub open spec fn field_line(prefix: Seq<char>, value: Option<Seq<char>>) -> Seq<char> {
    match value {
        Some(v) => prefix + first_line(v) + seq!['\n'],
        None => Seq::empty(),
    }
}

/// The wire form of an event: the `id` line, the `event` line, one `data` line per
/// line of the data, and the blank line that ends the frame.
pub open spec fn frame_of(
    data: Seq<char>,
    id: Option<Seq<char>>,
    event_type: Option<Seq<char>>,
) -> Seq<char> {
    field_line(id_prefix(), id) + field_line(event_prefix(), event_type) + data_prefix()
        + data_lines(data, false) + seq!['\n', '\n']
}

/// The view of an optional borrowed string.
pub open spec fn opt_view(s: Option<&str>) -> Option<Seq<char>> {
    match s {
        Some(v) => Some(v@),
        None => None,
    }
}

/// The heartbeat frame `:\n\n`: a comment and the blank line that ends the frame.
pub open spec fn heartbeat_frame() -> Seq<char> {
    seq![':', '\n', '\n']
}

/// Returns the heartbeat frame, which carries no data and keeps idle connections
/// from timing out.
pub fn heartbeat() -> (r: String)
    ensures
        r@ == heartbeat_frame(),
{
    let mut r = String::new();
    r.push(':');
    r.push('\n');
    r.push('\n');
    proof {
        assert(r@ =~= heartbeat_frame());
    }
    r
}

/// Appends the data lines of `s` to `out`.
fn push_data_lines(out: &mut String, s: &str)
    ensures
        final(out)@ == old(out)@ + data_lines(s@, false),
{
    let ghost start = out@;
    let mut chars = s.chars();
    let mut after_cr = false;
    loop
        invariant
            out@ + data_lines(chars.remaining(), after_cr) == start + data_lines(s@, false),
            chars.decrease() is Some,
        ensures
            out@ == start + data_lines(s@, false),
        decreases chars.decrease()->0,
    {
        let ghost rest = chars.remaining();
        match chars.next() {
            Some(c) => {
                if after_cr && c == '\n' {
                    after_cr = false;
                } else if c == '\n' || c == '\r' {
                    out.push('\n');
                    out.append("data: ");
                    proof {
                        reveal_strlit("data: ");
                    }
                    assert("data: "@ =~= data_prefix());
                    after_cr = c == '\r';
                } else {
                    out.push(c);
                    after_cr = false;
                }
                assert(chars.remaining() == rest.drop_first());
            },
            None => {
                assert(out@ =~= out@ + data_lines(chars.remaining(), after_cr));
                break;
            },
        }
    }
}

/// Appends the first line of `s` to `out`.
fn push_first_line(out: &mut String, s: &str)
    ensures
        final(out)@ == old(out)@ + first_line(s@),
{
    let ghost start = out@;
    let mut chars = s.chars();
    loop
        invariant_except_break
            out@ + first_line(chars.remaining()) == start + first_line(s@),
        invariant
            chars.decrease() is Some,
        ensures
            out@ == start + first_line(s@),
        decreases chars.decrease()->0,
    {
        let ghost rest = chars.remaining();
        match chars.next() {
            Some(c) => {
                if c == '\n' || c == '\r' {
                    assert(first_line(rest) =~= Seq::empty());
                    break;
                }
                out.push(c);
            },
            None => {
                break;
            },
        }
    }
}

/// An event to send to clients: its data, and an optional id and type.
///
/// The fields are borrowed; `build` turns the event into its wire form.
#[derive(Debug, Clone, Copy, PartialEq, Eq)]
pub struct EventBuilder<'data, 'id, 'event> {
    pub data: &'data str,
    pub id: Option<&'id str>,
    pub event_type: Option<&'event str>,
}

impl<'data, 'id, 'event> EventBuilder<'data, 'id, 'event> {
    /// Create a new builder with data, no id and no event type.
    pub fn new(data: &'data str) -> (r: Self)
        ensures
            r.data@ == data@,
            r.id is None,
            r.event_type is None,
    {
        Self { data, id: None, event_type: None }
    }

    /// Set the data.
    pub fn data(self, data: &'data str) -> (r: Self)
        ensures
            r.data@ == data@,
            r.id == self.id,
            r.event_type == self.event_type,
    {
        Self { data, ..self }
    }

    /// Set the event id.
    pub fn id(self, id: &'id str) -> (r: Self)
        ensures
            r.data == self.data,
            opt_view(r.id) == Some(id@),
            r.event_type == self.event_type,
    {
        Self { id: Some(id), ..self }
    }

    /// Set the event type.
    pub fn event_type(self, event_type: &'event str) -> (r: Self)
        ensures
            r.data == self.data,
            r.id == self.id,
            opt_view(r.event_type) == Some(event_type@),
    {
        Self { event_type: Some(event_type), ..self }
    }

    /// Clear the event id.
    pub fn clear_id(self) -> (r: Self)
        ensures
            r.data == self.data,
            r.id is None,
            r.event_type == self.event_type,
    {
        Self { id: None, ..self }
    }

    /// Clear the event type.
    pub fn clear_type(self) -> (r: Self)
        ensures
            r.data == self.data,
            r.id == self.id,
            r.event_type is None,
    {
        Self { event_type: None, ..self }
    }

    /// The wire form of this event.
    pub open spec fn frame(self) -> Seq<char> {
        frame_of(self.data@, opt_view(self.id), opt_view(self.event_type))
    }

    /// Build the event: an `id` line if there is an id, an `event` line if there is
    /// a type, one `data` line for each line of the data (an empty line and empty
    /// data included), and a blank line. An id or a type that holds a line break
    /// is cut at it, so that it cannot break the framing.
    pub fn build(self) -> (r: String)
        ensures
            r@ == self.frame(),
    {
        let mut event = String::new();
        if let Some(id) = self.id {
            event.append("id: ");
            push_first_line(&mut event, id);
            event.push('\n');
        }
        let ghost after_id = event@;
        if let Some(event_type) = self.event_type {
            event.append("event: ");
            push_first_line(&mut event, event_type);
            event.push('\n');
        }
        let ghost after_type = event@;
        event.append("data: ");
        push_data_lines(&mut event, self.data);
        event.push('\n');
        event.push('\n');
        proof {
            reveal_strlit("id: ");
            reveal_strlit("event: ");
            reveal_strlit("data: ");
            assert("id: "@ =~= id_prefix());
            assert("event: "@ =~= event_prefix());
            assert("data: "@ =~= data_prefix());
            assert(after_id =~= field_line(id_prefix(), opt_view(self.id)));
            assert(after_type =~= after_id + field_line(event_prefix(), opt_view(self.event_type)));
            assert(event@ =~= self.frame());
        }
        event
    }
}

/// Every line feed in the data lines starts a new `data: ` line, and the data
/// lines do not end with a line feed.
proof fn lemma_data_lines_shape(s: Seq<char>, after_cr: bool)
    ensures
        forall|j: int|
            0 <= j < data_lines(s, after_cr).len() && #[trigger] data_lines(s, after_cr)[j] == '\n'
                ==> j + 7 <= data_lines(s, after_cr).len() && data_lines(s, after_cr).subrange(j + 1, j + 7)
                == data_prefix(),
        data_lines(s, after_cr).len() == 0 || data_lines(s, after_cr).last() != '\n',
    decreases s.len(),
{
    if s.len() == 0 {
    } else if after_cr && s[0] == '\n' {
        lemma_data_lines_shape(s.drop_first(), false);
    } else if is_line_break(s[0]) {
        let tail = data_lines(s.drop_first(), s[0] == '\r');
        lemma_data_lines_shape(s.drop_first(), s[0] == '\r');
        let d = data_lines(s, after_cr);
        assert(d == seq!['\n'] + data_prefix() + tail);
        assert forall|j: int| 0 <= j < d.len() && #[trigger] d[j] == '\n' implies j + 7 <= d.len()
            && d.subrange(j + 1, j + 7) == data_prefix() by {
            if j == 0 {
                assert(d.subrange(1, 7) =~= data_prefix());
            } else if j < 7 {
                assert(d[j] == data_prefix()[j - 1]);
            } else {
                assert(d[j] == tail[j - 7]);
                assert(d.subrange(j + 1, j + 7) =~= tail.subrange(j - 6, j));
            }
        }
        if tail.len() > 0 {
            assert(d.last() == tail.last());
        }
    } else {
        let tail = data_lines(s.drop_first(), false);
        lemma_data_lines_shape(s.drop_first(), false);
        let d = data_lines(s, after_cr);
        assert(d == seq![s[0]] + tail);
        assert forall|j: int| 0 <= j < d.len() && #[trigger] d[j] == '\n' implies j + 7 <= d.len()
            && d.subrange(j + 1, j + 7) == data_prefix() by {
            if j > 0 {
                assert(d[j] == tail[j - 1]);
                assert(d.subrange(j + 1, j + 7) =~= tail.subrange(j, j + 6));
            }
        }
        if tail.len() > 0 {
            assert(d.last() == tail.last());
        }
    }
}

/// A frame built from data alone ends with exactly one blank line, and every
/// line before it is a `data: ` line, so it holds no `id` or `event` line.
pub proof fn lemma_data_only_frame(data: Seq<char>)
    ensures
        ({
            let f = frame_of(data, None, None);
            &&& f.len() >= 8
            &&& f.subrange(f.len() - 2, f.len() as int) == seq!['\n', '\n']
            &&& f[f.len() - 3] != '\n'
            &&& forall|k: int|
                0 <= k < f.len() - 1 && (k == 0 || f[k - 1] == '\n') ==> k + 6 <= f.len()
                    && #[trigger] f.subrange(k, k + 6) == data_prefix()
        }),
{
    let f = frame_of(data, None, None);
    let d = data_lines(data, false);
    lemma_data_lines_shape(data, false);
    assert(f =~= data_prefix() + d + seq!['\n', '\n']);
    assert(f.subrange(f.len() - 2, f.len() as int) =~= seq!['\n', '\n']);
    if d.len() > 0 {
        assert(f[f.len() - 3] == d.last());
    }
    assert forall|k: int| 0 <= k < f.len() - 1 && (k == 0 || f[k - 1] == '\n') implies k + 6 <= f.len()
        && #[trigger] f.subrange(k, k + 6) == data_prefix() by {
        if k == 0 {
            assert(f.subrange(0, 6) =~= data_prefix());
        } else if k <= 6 {
            assert(f[k - 1] == data_prefix()[k - 1]);
        } else {
            let j = k - 7;
            assert(f[k - 1] == d[j]);
            assert(f.subrange(k, k + 6) =~= d.subrange(j + 1, j + 7));
        }
    }
}

} // verus!
