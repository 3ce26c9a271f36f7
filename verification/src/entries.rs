//! Parsing of the mount-entry list.
//!
//! The entry source hands the orchestrator a text blob with one target
//! location per line. A line starting with the anonymous marker
//! `[anonymous]` requests an anonymous mount of the location that follows
//! the marker; blank lines are skipped. Parsing yields the ordered
//! sequence of [`MountRequest`] values the orchestrator dispatches.

use vstd::prelude::*;
use vstd::string::StrSliceExecFns;

verus! {

/// One mount request read from the entry list: a target location and
/// whether it is to be mounted anonymously. Immutable once created.
#[derive(Debug, Clone, PartialEq, Eq)]
pub struct MountRequest {
    /// The URI-like identifier of the location to mount.
    pub location: String,
    /// Whether the entry carried the anonymous marker.
    pub anonymous: bool,
}

/// The mathematical content of a [`MountRequest`].
pub ghost struct RequestModel {
    /// The location's characters.
    pub location: Seq<char>,
    /// Whether the entry carried the anonymous marker.
    pub anonymous: bool,
}

/// The marker that opens a line requesting an anonymous mount.
pub open spec fn anonymous_marker() -> Seq<char> {
    "[anonymous]"@
}

/// The request denoted by one non-blank line: if the line starts with the
/// anonymous marker, the location is the rest of the line and the request
/// is anonymous; otherwise the whole line is the location.
pub open spec fn request_of_line(line: Seq<char>) -> RequestModel {
    if line.len() >= anonymous_marker().len() && line.subrange(
        0,
        anonymous_marker().len() as int,
    ) == anonymous_marker() {
        RequestModel { location: line.skip(anonymous_marker().len() as int), anonymous: true }
    } else {
        RequestModel { location: line, anonymous: false }
    }
}

/// The position of the first line break in `s`, or `s.len()` if there is
/// none.
pub open spec fn first_newline(s: Seq<char>) -> int
    decreases s.len(),
{
    if s.len() == 0 {
        0
    } else if s[0] == '\n' {
        0
    } else {
        1 + first_newline(s.drop_first())
    }
}

/// `first_newline` lies within `s`, everything before it is not a line
/// break, and what it points at (if anything) is one.
pub proof fn lemma_first_newline_bounds(s: Seq<char>)
    ensures
        0 <= first_newline(s) <= s.len(),
        forall|k: int| 0 <= k < first_newline(s) ==> s[k] != '\n',
        first_newline(s) < s.len() ==> s[first_newline(s)] == '\n',
    decreases s.len(),
{
    if s.len() != 0 && s[0] != '\n' {
        let t = s.drop_first();
        lemma_first_newline_bounds(t);
        assert forall|k: int| 0 <= k < first_newline(s) implies s[k] != '\n' by {
            if k > 0 {
                assert(t[k - 1] == s[k]);
            }
        }
        if first_newline(s) < s.len() {
            assert(t[first_newline(s) - 1] == s[first_newline(s)]);
        }
    }
}

/// A position with no line break before it, and a line break (or the end
/// of `s`) at it, is exactly `first_newline(s)`.
pub proof fn lemma_first_newline_at(s: Seq<char>, k: int)
    requires
        0 <= k <= s.len(),
        forall|i: int| 0 <= i < k ==> s[i] != '\n',
        k < s.len() ==> s[k] == '\n',
    ensures
        first_newline(s) == k,
    decreases s.len(),
{
    if s.len() == 0 {
    } else if s[0] == '\n' {
        assert(k == 0);
    } else {
        assert(k >= 1);
        let t = s.drop_first();
        assert forall|i: int| 0 <= i < k - 1 implies t[i] != '\n' by {
            assert(t[i] == s[i + 1]);
        }
        if k - 1 < t.len() {
            assert(t[k - 1] == s[k]);
        }
        lemma_first_newline_at(t, k - 1);
    }
}

/// The requests denoted by a whole entry list: one request per non-blank
/// line, in order.
pub open spec fn parse_spec(content: Seq<char>) -> Seq<RequestModel>
    decreases content.len(),
    via parse_spec_decreases
{
    if content.len() == 0 {
        Seq::empty()
    } else {
        let line_end = first_newline(content);
        let line = content.subrange(0, line_end);
        let rest = if line_end < content.len() {
            content.subrange(line_end + 1, content.len() as int)
        } else {
            Seq::empty()
        };
        let head: Seq<RequestModel> = if line.len() == 0 {
            Seq::empty()
        } else {
            seq![request_of_line(line)]
        };
        head + parse_spec(rest)
    }
}

#[via_fn]
proof fn parse_spec_decreases(content: Seq<char>) {
    lemma_first_newline_bounds(content);
}

/// Whether an executable request sequence carries exactly the content of a
/// model sequence.
pub open spec fn models(requests: Seq<MountRequest>, model: Seq<RequestModel>) -> bool {
    &&& requests.len() == model.len()
    &&& forall|i: int|
        0 <= i < requests.len() ==> {
            &&& (#[trigger] requests[i]).location@ == model[i].location
            &&& requests[i].anonymous == model[i].anonymous
        }
}

/// Parse one non-blank line into the request it denotes.
pub fn parse_line(line: &str) -> (r: MountRequest)
    ensures
        r.location@ == request_of_line(line@).location,
        r.anonymous == request_of_line(line@).anonymous,
{
    proof {
        reveal_strlit("[anonymous]");
    }
    let marker = "[anonymous]";
    let len = line.unicode_len();
    if len >= 11 {
        let mut i: usize = 0;
        let mut has_marker = true;
        while i < 11
            invariant
                0 <= i <= 11,
                len >= 11,
                len == line@.len(),
                marker@ == anonymous_marker(),
                anonymous_marker().len() == 11,
                has_marker == (forall|k: int| 0 <= k < i ==> line@[k] == anonymous_marker()[k]),
            decreases 11 - i,
        {
            let c = line.get_char(i);
            let m = marker.get_char(i);
            if c != m {
                has_marker = false;
            }
            i = i + 1;
        }
        if has_marker {
            proof {
                assert(line@.subrange(0, 11) =~= anonymous_marker());
            }
            let location = line.substring_char(11, len);
            proof {
                assert(location@ =~= line@.skip(11));
            }
            MountRequest { location: location.to_owned(), anonymous: true }
        } else {
            proof {
                let k = choose|k: int| 0 <= k < 11 && line@[k] != anonymous_marker()[k];
                assert(line@.subrange(0, 11)[k] == line@[k]);
            }
            MountRequest { location: line.to_owned(), anonymous: false }
        }
    } else {
        MountRequest { location: line.to_owned(), anonymous: false }
    }
}

/// Parse a whole entry list: one request per non-blank line, in order,
/// blank lines skipped, the anonymous marker stripped from the location.
pub fn parse_entries(content: &str) -> (r: Vec<MountRequest>)
    ensures
        models(r@, parse_spec(content@)),
{
    let mut requests: Vec<MountRequest> = Vec::new();
    let ghost mut done: Seq<RequestModel> = Seq::empty();
    let n = content.unicode_len();
    let mut pos: usize = 0;
    proof {
        assert(content@.subrange(0, n as int) =~= content@);
        assert(Seq::<RequestModel>::empty() + parse_spec(content@) =~= parse_spec(content@));
    }
    while pos < n
        invariant
            0 <= pos <= n,
            n == content@.len(),
            models(requests@, done),
            parse_spec(content@) == done + parse_spec(content@.subrange(pos as int, n as int)),
        decreases n - pos,
    {
        let mut j: usize = pos;
        while j < n && content.get_char(j) != '\n'
            invariant
                pos <= j <= n,
                n == content@.len(),
                forall|k: int| pos <= k < j ==> content@[k] != '\n',
            decreases n - j,
        {
            j = j + 1;
        }
        let ghost suffix = content@.subrange(pos as int, n as int);
        let ghost line_len = j - pos;
        proof {
            assert forall|i: int| 0 <= i < line_len implies suffix[i] != '\n' by {
                assert(suffix[i] == content@[pos + i]);
            }
            if j < n {
                assert(suffix[line_len] == content@[j as int]);
            }
            lemma_first_newline_at(suffix, line_len);
        }
        let ghost old_done = done;
        if j > pos {
            let line = content.substring_char(pos, j);
            proof {
                assert(line@ =~= suffix.subrange(0, line_len));
            }
            let req = parse_line(line);
            let ghost old_reqs = requests@;
            requests.push(req);
            proof {
                done = done.push(request_of_line(line@));
                assert forall|i: int| 0 <= i < requests@.len() implies {
                    &&& (#[trigger] requests@[i]).location@ == done[i].location
                    &&& requests@[i].anonymous == done[i].anonymous
                } by {
                    if i < requests@.len() - 1 {
                        assert(requests@[i] == old_reqs[i]);
                    }
                }
            }
        }
        proof {
            let line_s = suffix.subrange(0, line_len);
            let rest = if line_len < suffix.len() {
                suffix.subrange(line_len + 1, suffix.len() as int)
            } else {
                Seq::<char>::empty()
            };
            let head: Seq<RequestModel> = if line_s.len() == 0 {
                Seq::empty()
            } else {
                seq![request_of_line(line_s)]
            };
            assert(parse_spec(suffix) == head + parse_spec(rest));
            assert(old_done + (head + parse_spec(rest)) =~= (old_done + head) + parse_spec(rest));
            assert(done =~= old_done + head);
            if j < n {
                assert(rest =~= content@.subrange(j as int + 1, n as int));
            } else {
                assert(rest =~= content@.subrange(n as int, n as int));
            }
        }
        pos = if j < n {
            j + 1
        } else {
            n
        };
    }
    proof {
        assert(content@.subrange(n as int, n as int) =~= Seq::<char>::empty());
        assert(done + Seq::<RequestModel>::empty() =~= done);
    }
    requests
}

} // verus!
