//! Finding a header by its key.

use crate::bytes::bytes_equal;
use crate::request::headers::scan::LineView;
use crate::request::headers::{HeaderLine, HeaderValue, HttpHeaders};
use crate::text::{lowercase, lowercased, utf8_text};
use vstd::prelude::*;
use vstd::string::StringSliceAdditionalSpecFns;
use vstd::utf8::{decode_utf8, encode_utf8_decode_utf8, valid_utf8};

verus! {

/// The place of the first line among `lines`, from `from` on, of which
/// `wanted` holds, or `lines.len()` when it holds of none there.
pub open spec fn first_line_where(
    lines: Seq<LineView>,
    wanted: spec_fn(LineView) -> bool,
    from: int,
) -> int
    decreases lines.len() - from,
{
    if from < 0 || from >= lines.len() {
        lines.len() as int
    } else if wanted(lines[from]) {
        from
    } else {
        first_line_where(lines, wanted, from + 1)
    }
}

/// Whether a key reads `lowered` once it is put into lowercase. A key that
/// is no text reads nothing.
pub open spec fn reads_lowered(key: Seq<u8>, lowered: Seq<char>) -> bool {
    valid_utf8(key) && lowercased(decode_utf8(key)) == lowered
}

/// The place of the line that a lookup finds among `lines`: the first
/// line whose key is `key` byte for byte; or else the first line whose key
/// reads `lowered` in lowercase, where `lowered` is the lowercase form of
/// the key that is looked up.
pub open spec fn looked_up(lines: Seq<LineView>, key: Seq<u8>, lowered: Seq<char>) -> Option<
    int,
> {
    let exact = first_line_where(lines, |line: LineView| line.key == key, 0);
    let caseless = first_line_where(lines, |line: LineView| reads_lowered(line.key, lowered), 0);
    if exact < lines.len() {
        Some(exact)
    } else if caseless < lines.len() {
        Some(caseless)
    } else {
        None
    }
}

/// The lines among `lines` whose key is not empty, in their order.
pub open spec fn named_lines(lines: Seq<LineView>) -> Seq<LineView>
    decreases lines.len(),
{
    if lines.len() == 0 {
        Seq::empty()
    } else if lines.last().key.len() > 0 {
        named_lines(lines.drop_last()).push(lines.last())
    } else {
        named_lines(lines.drop_last())
    }
}

/// The lines that references point to, as plain values.
pub open spec fn line_views(lines: Seq<&HeaderLine>) -> Seq<LineView> {
    Seq::new(lines.len(), |i: int| lines[i]@)
}

/// A place of which `wanted` holds, with no such place between `from` and
/// it, is `first_line_where`; so is the end when `wanted` holds of no line
/// from `from` on.
pub proof fn lemma_first_line_where_found(
    lines: Seq<LineView>,
    wanted: spec_fn(LineView) -> bool,
    from: int,
    at: int,
)
    requires
        0 <= from <= at <= lines.len(),
        forall|j: int| from <= j < at ==> !wanted(#[trigger] lines[j]),
        at < lines.len() ==> wanted(lines[at]),
    ensures
        first_line_where(lines, wanted, from) == at,
    decreases at - from,
{
    if from < at {
        lemma_first_line_where_found(lines, wanted, from + 1, at);
    }
}

/// The place of the first text among `candidates` that reads `wanted`.
///
/// A candidate that is `None` reads nothing.
pub fn position_of_text(candidates: &Vec<Option<String>>, wanted: &String) -> (place: Option<usize>)
    ensures
        match place {
            Some(i) => {
                &&& i < candidates@.len()
                &&& candidates@[i as int] matches Some(text) && text@ == wanted@
                &&& forall|j: int|
                    0 <= j < i ==> !(#[trigger] candidates@[j] matches Some(text) && text@
                        == wanted@)
            },
            None => forall|j: int|
                0 <= j < candidates@.len() ==> !(#[trigger] candidates@[j] matches Some(text)
                    && text@ == wanted@),
        },
{
    let mut i: usize = 0;
    while i < candidates.len()
        invariant
            i <= candidates@.len(),
            forall|j: int|
                0 <= j < i ==> !(#[trigger] candidates@[j] matches Some(text) && text@ == wanted@),
        decreases candidates@.len() - i,
    {
        let same = match &candidates[i] {
            Some(text) => *text == *wanted,
            None => false,
        };
        if same {
            return Some(i);
        }
        i = i + 1;
    }
    None
}

impl<'buf, const HL: usize> HttpHeaders<'buf, HL> {
    /// The place of the first kept line whose key is `key` byte for byte.
    fn exact_position(&self, key: &[u8]) -> (place: usize)
        ensures
            place == first_line_where(self@.lines, |line: LineView| line.key == key@, 0),
            place <= self@.lines.len(),
    {
        let ghost wanted = |line: LineView| line.key == key@;
        let mut i: usize = 0;
        while i < self.lines.len()
            invariant
                i <= self@.lines.len(),
                wanted == (|line: LineView| line.key == key@),
                forall|j: int| 0 <= j < i ==> !wanted(#[trigger] self@.lines[j]),
            decreases self@.lines.len() - i,
        {
            if bytes_equal(self.lines.line(i).key, key) {
                proof {
                    lemma_first_line_where_found(self@.lines, wanted, 0, i as int);
                }
                return i;
            }
            i = i + 1;
        }
        proof {
            lemma_first_line_where_found(self@.lines, wanted, 0, i as int);
        }
        i
    }

    /// The keys of the kept lines in lowercase, where they are text.
    fn lowered_keys(&self) -> (keys: Vec<Option<String>>)
        ensures
            keys@.len() == self@.lines.len(),
            forall|i: int|
                0 <= i < keys@.len() ==> match #[trigger] keys@[i] {
                    Some(text) => valid_utf8(self@.lines[i].key) && text@ == lowercased(
                        decode_utf8(self@.lines[i].key),
                    ),
                    None => !valid_utf8(self@.lines[i].key),
                },
    {
        let mut keys: Vec<Option<String>> = Vec::new();
        let mut i: usize = 0;
        while i < self.lines.len()
            invariant
                i <= self@.lines.len(),
                keys@.len() == i,
                forall|j: int|
                    0 <= j < i ==> match #[trigger] keys@[j] {
                        Some(text) => valid_utf8(self@.lines[j].key) && text@ == lowercased(
                            decode_utf8(self@.lines[j].key),
                        ),
                        None => !valid_utf8(self@.lines[j].key),
                    },
            decreases self@.lines.len() - i,
        {
            let lowered = match utf8_text(self.lines.line(i).key) {
                Some(text) => {
                    proof {
                        encode_utf8_decode_utf8(text@);
                    }
                    Some(lowercase(text))
                },
                None => None,
            };
            keys.push(lowered);
            i = i + 1;
        }
        keys
    }

    /// The value of the header `key`.
    ///
    /// The lines are gone through twice, in the order in which they were
    /// kept: first for a key that is `key` byte for byte, then for a key
    /// that is `key` once both are put into lowercase. The first line that
    /// is found gives the value.
    pub fn get(&self, key: &str) -> (value: Option<&HeaderValue<'buf>>)
        ensures
            match looked_up(self@.lines, key.spec_bytes(), lowercased(key@)) {
                Some(place) => value matches Some(v) && v@ == self@.lines[place].value,
                None => value is None,
            },
    {
        let exact = self.exact_position(key.as_bytes());
        if exact < self.lines.len() {
            return Some(&self.lines.line(exact).value);
        }
        let lowered = lowercase(key);
        let keys = self.lowered_keys();
        let ghost wanted = |line: LineView| reads_lowered(line.key, lowercased(key@));
        match position_of_text(&keys, &lowered) {
            Some(place) => {
                proof {
                    assert forall|j: int| 0 <= j < place implies !wanted(
                        #[trigger] self@.lines[j],
                    ) by {
                        let _ = keys@[j];
                    }
                    lemma_first_line_where_found(self@.lines, wanted, 0, place as int);
                }
                Some(&self.lines.line(place).value)
            },
            None => {
                proof {
                    assert forall|j: int| 0 <= j < self@.lines.len() implies !wanted(
                        #[trigger] self@.lines[j],
                    ) by {
                        let _ = keys@[j];
                    }
                    lemma_first_line_where_found(
                        self@.lines,
                        wanted,
                        0,
                        self@.lines.len() as int,
                    );
                }
                None
            },
        }
    }

    /// The value of the header `key` as text: there is none where no line
    /// is found, nor where the value that is found is not UTF-8.
    pub fn get_as_str(&self, key: &str) -> (text: Option<&'buf str>)
        ensures
            match looked_up(self@.lines, key.spec_bytes(), lowercased(key@)) {
                Some(place) => {
                    &&& text is Some <==> valid_utf8(self@.lines[place].value)
                    &&& text matches Some(t) ==> t.spec_bytes() == self@.lines[place].value
                },
                None => text is None,
            },
    {
        match self.get(key) {
            Some(value) => value.to_str(),
            None => None,
        }
    }

    /// The bytes of the value of the header `key`.
    pub fn get_as_bytes(&self, key: &str) -> (bytes: Option<&'buf [u8]>)
        ensures
            match looked_up(self@.lines, key.spec_bytes(), lowercased(key@)) {
                Some(place) => bytes matches Some(b) && b@ == self@.lines[place].value,
                None => bytes is None,
            },
    {
        match self.get(key) {
            Some(value) => Some(value.as_bytes()),
            None => None,
        }
    }

    /// The kept lines whose key is not empty, in the order in which they
    /// were kept.
    pub fn lines(&self) -> (lines: Vec<&HeaderLine<'buf>>)
        ensures
            line_views(lines@) == named_lines(self@.lines),
    {
        let mut lines: Vec<&HeaderLine<'buf>> = Vec::new();
        let mut i: usize = 0;
        while i < self.lines.len()
            invariant
                i <= self@.lines.len(),
                line_views(lines@) == named_lines(self@.lines.take(i as int)),
            decreases self@.lines.len() - i,
        {
            let line = self.lines.line(i);
            proof {
                assert(self@.lines.take(i + 1).drop_last() =~= self@.lines.take(i as int));
            }
            if line.key.len() > 0 {
                let ghost before = lines@;
                lines.push(line);
                assert(line_views(lines@) =~= line_views(before).push(line@));
            }
            i = i + 1;
        }
        proof {
            assert(self@.lines.take(i as int) =~= self@.lines);
        }
        lines
    }
}

} // verus!
