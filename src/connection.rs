use vstd::prelude::*;

use crate::reactor::Interest;

verus! {

/// The fixed answer sent once a request is complete.
pub const RESPONSE: &'static str = "HTTP/1.1 200 OK\ncontent-type: text/html\ncontent-length: 5\n\nHello";

/// How many leading bytes of each read are searched for the length header.
pub const HEADER_WINDOW: usize = 100;

/// The bytes of the header name, lower case, with its separator.
pub open spec fn header_name() -> Seq<u8> {
    seq![99u8, 111, 110, 116, 101, 110, 116, 45, 108, 101, 110, 103, 116, 104, 58, 32]
}

/// The protocol marker that a request head carries.
pub open spec fn protocol_marker() -> Seq<u8> {
    seq![72u8, 84, 84, 80]
}

/// `b` in ASCII lower case.
pub open spec fn lower(b: u8) -> u8 {
    if 65 <= b <= 90 {
        (b + 32) as u8
    } else {
        b
    }
}

/// `s` holds the protocol marker somewhere.
pub open spec fn has_marker(s: Seq<u8>) -> bool {
    exists|i: int| 0 <= i && i + 4 <= s.len() && #[trigger] s.subrange(i, i + 4) == protocol_marker()
}

/// The line `l` starts with the header name, ignoring ASCII case.
pub open spec fn is_length_line(l: Seq<u8>) -> bool {
    l.len() >= 16 && forall|k: int| 0 <= k < 16 ==> lower(#[trigger] l[k]) == header_name()[k]
}

/// The line `s[start..end]`, without a carriage return before its newline
/// when `end` is at a newline.
pub open spec fn line_of(s: Seq<u8>, start: int, end: int) -> Seq<u8> {
    if end < s.len() && end > start && s[end - 1] == 13 {
        s.subrange(start, end - 1)
    } else {
        s.subrange(start, end)
    }
}

/// What follows the header name on the first length line of `s` at or after
/// the line that starts at `start`, scanning that line from `pos`.
pub open spec fn header_value_from(s: Seq<u8>, start: int, pos: int) -> Option<Seq<u8>>
    decreases s.len() - pos,
{
    if pos >= s.len() || s[pos] == 10 {
        let line = line_of(s, start, pos);
        if is_length_line(line) {
            Some(line.subrange(16, line.len() as int))
        } else if pos >= s.len() {
            None
        } else {
            header_value_from(s, pos + 1, pos + 1)
        }
    } else {
        header_value_from(s, start, pos + 1)
    }
}

/// `s` is made of ASCII digits only.
pub open spec fn all_digits(s: Seq<u8>) -> bool {
    forall|k: int| 0 <= k < s.len() ==> 48 <= #[trigger] s[k] <= 57
}

/// The number that the ASCII digits `s` write in decimal.
pub open spec fn digits_value(s: Seq<u8>) -> nat
    decreases s.len(),
{
    if s.len() == 0 {
        0
    } else {
        digits_value(s.drop_last()) * 10 + (s.last() - 48) as nat
    }
}

/// A decimal count: an optional plus sign, then one or more digits, whose
/// value fits in a `usize`.
pub open spec fn count_of(s: Seq<u8>) -> Option<usize> {
    let d = if s.len() > 0 && s[0] == 43 {
        s.drop_first()
    } else {
        s
    };
    if d.len() > 0 && all_digits(d) && digits_value(d) <= usize::MAX {
        Some(digits_value(d) as usize)
    } else {
        None
    }
}

/// The length that a request head declares: the head must hold the protocol
/// marker, and its first line that starts with the header name must carry a
/// valid count after it.
pub open spec fn declared_in(head: Seq<u8>) -> Option<usize> {
    if has_marker(head) {
        match header_value_from(head, 0, 0) {
            Some(v) => count_of(v),
            None => None,
        }
    } else {
        None
    }
}

proof fn lemma_digits_value_grows(s: Seq<u8>, i: int)
    requires
        all_digits(s),
        0 <= i <= s.len(),
    ensures
        digits_value(s.subrange(0, i)) <= digits_value(s),
    decreases s.len(),
{
    if i < s.len() {
        assert(s.drop_last() =~= s.subrange(0, s.len() - 1));
        assert(s.subrange(0, i) =~= s.drop_last().subrange(0, i));
        lemma_digits_value_grows(s.drop_last(), i);
    } else {
        assert(s.subrange(0, i) =~= s);
    }
}

/// Reads the decimal count written in `s[from..to]`, or `None` when it is
/// not a valid count.
fn parse_count(s: &Vec<u8>, from: usize, to: usize) -> (r: Option<usize>)
    requires
        from <= to <= s.len(),
    ensures
        r == count_of(s@.subrange(from as int, to as int)),
{
    let ghost v = s@.subrange(from as int, to as int);
    let mut start = from;
    if from < to && s[from] == 43 {
        start = from + 1;
    }
    let ghost d = s@.subrange(start as int, to as int);
    proof {
        if from < to && s[from as int] == 43 {
            assert(v.drop_first() =~= d);
        } else {
            assert(v =~= d);
        }
    }
    if start == to {
        return None;
    }
    proof {
        assert(count_of(v) == (if all_digits(d) && digits_value(d) <= usize::MAX {
            Some(digits_value(d) as usize)
        } else {
            None::<usize>
        }));
    }
    let mut value: usize = 0;
    let mut i: usize = start;
    while i < to
        invariant
            start <= i <= to <= s.len(),
            d == s@.subrange(start as int, to as int),
            v == s@.subrange(from as int, to as int),
            count_of(v) == (if all_digits(d) && digits_value(d) <= usize::MAX {
                Some(digits_value(d) as usize)
            } else {
                None::<usize>
            }),
            all_digits(s@.subrange(start as int, i as int)),
            value == digits_value(s@.subrange(start as int, i as int)),
        decreases to - i,
    {
        let b = s[i];
        let ghost prefix = s@.subrange(start as int, i as int + 1);
        proof {
            assert(prefix.drop_last() =~= s@.subrange(start as int, i as int));
            assert(prefix =~= d.subrange(0, i - start + 1));
        }
        if b < 48 || b > 57 {
            proof {
                assert(d[i - start] == b);
                assert(!all_digits(d));
                assert(count_of(v) is None);
            }
            return None;
        }
        let digit = (b - 48) as usize;
        if value > (usize::MAX - digit) / 10 {
            proof {
                assert(all_digits(prefix));
                assert(prefix.last() == b);
                assert(digits_value(prefix) == value * 10 + digit);
                assert(digits_value(prefix) > usize::MAX) by (nonlinear_arith)
                    requires
                        value > (usize::MAX - digit) / 10,
                        digits_value(prefix) == value * 10 + digit,
                        digit <= 9,
                ;
                if all_digits(d) {
                    lemma_digits_value_grows(d, i - start + 1);
                }
                assert(count_of(v) is None);
            }
            return None;
        }
        proof {
            assert(value * 10 + digit <= usize::MAX) by (nonlinear_arith)
                requires
                    value <= (usize::MAX - digit) / 10,
                    digit <= 9,
            ;
        }
        value = value * 10 + digit;
        i = i + 1;
        proof {
            assert(prefix.last() == b);
            assert(all_digits(prefix));
        }
    }
    proof {
        assert(s@.subrange(start as int, i as int) =~= d);
    }
    Some(value)
}

/// The first `HEADER_WINDOW` bytes of a read, or all of them if fewer.
pub open spec fn window_of(chunk: Seq<u8>) -> Seq<u8> {
    if chunk.len() <= HEADER_WINDOW {
        chunk
    } else {
        chunk.subrange(0, HEADER_WINDOW as int)
    }
}

fn lower_byte(b: u8) -> (r: u8)
    ensures
        r == lower(b),
{
    if 65 <= b && b <= 90 {
        b + 32
    } else {
        b
    }
}

/// Whether `s` holds the protocol marker.
fn find_marker(s: &Vec<u8>) -> (r: bool)
    ensures
        r == has_marker(s@),
{
    let mut i: usize = 0;
    while i < s.len() && s.len() - i >= 4
        invariant
            forall|k: int| 0 <= k < i ==> #[trigger] s@.subrange(k, k + 4) != protocol_marker(),
        decreases s.len() - i,
    {
        let ghost w = s@.subrange(i as int, i as int + 4);
        if s[i] == 72 && s[i + 1] == 84 && s[i + 2] == 84 && s[i + 3] == 80 {
            proof {
                assert(w =~= protocol_marker());
            }
            return true;
        }
        proof {
            assert(w[0] == s@[i as int] && w[1] == s@[i + 1] && w[2] == s@[i + 2] && w[3] == s@[i + 3]);
            assert(protocol_marker()[0] == 72 && protocol_marker()[1] == 84);
            assert(protocol_marker()[2] == 84 && protocol_marker()[3] == 80);
        }
        i = i + 1;
    }
    proof {
        assert(i >= s.len() || s.len() - i < 4);
        assert forall|k: int| 0 <= k && k + 4 <= s@.len() implies #[trigger] s@.subrange(k, k + 4)
            != protocol_marker() by {
            assert(k < i);
        }
    }
    false
}

/// Whether `s[a..e]` is a length line.
fn is_length_line_at(s: &Vec<u8>, a: usize, e: usize) -> (r: bool)
    requires
        a <= e <= s.len(),
    ensures
        r == is_length_line(s@.subrange(a as int, e as int)),
{
    let ghost l = s@.subrange(a as int, e as int);
    if e - a < 16 {
        return false;
    }
    let name: Vec<u8> = vec![99, 111, 110, 116, 101, 110, 116, 45, 108, 101, 110, 103, 116, 104, 58, 32];
    proof {
        assert(name@ =~= header_name());
    }
    let mut k: usize = 0;
    while k < 16
        invariant
            k <= 16,
            a + 16 <= e <= s.len(),
            l == s@.subrange(a as int, e as int),
            name@ == header_name(),
            forall|j: int| 0 <= j < k ==> lower(#[trigger] l[j]) == header_name()[j],
        decreases 16 - k,
    {
        if lower_byte(s[a + k]) != name[k] {
            proof {
                assert(l[k as int] == s@[a + k]);
            }
            return false;
        }
        proof {
            assert(l[k as int] == s@[a + k]);
        }
        k = k + 1;
    }
    true
}

/// Where the value of the first length line of `s` lies, if there is one.
fn find_header_value(s: &Vec<u8>) -> (r: Option<(usize, usize)>)
    ensures
        match r {
            Some((a, b)) => a <= b <= s.len() && header_value_from(s@, 0, 0) == Some(
                s@.subrange(a as int, b as int),
            ),
            None => header_value_from(s@, 0, 0) is None,
        },
{
    let mut start: usize = 0;
    let mut pos: usize = 0;
    loop
        invariant
            start <= pos <= s.len(),
            header_value_from(s@, 0, 0) == header_value_from(s@, start as int, pos as int),
        decreases s.len() - pos,
    {
        if pos >= s.len() || s[pos] == 10 {
            let end = if pos < s.len() && pos > start && s[pos - 1] == 13 {
                pos - 1
            } else {
                pos
            };
            let ghost line = line_of(s@, start as int, pos as int);
            proof {
                assert(line =~= s@.subrange(start as int, end as int));
            }
            if is_length_line_at(s, start, end) {
                proof {
                    assert(line.subrange(16, line.len() as int) =~= s@.subrange(
                        start + 16,
                        end as int,
                    ));
                }
                return Some((start + 16, end));
            }
            if pos >= s.len() {
                return None;
            }
            start = pos + 1;
            pos = pos + 1;
        } else {
            pos = pos + 1;
        }
    }
}

/// The length that a request head declares (see `declared_in`).
pub fn declared_length(head: &Vec<u8>) -> (r: Option<usize>)
    ensures
        r == declared_in(head@),
{
    if !find_marker(head) {
        return None;
    }
    match find_header_value(head) {
        Some((a, b)) => parse_count(head, a, b),
        None => None,
    }
}

/// A request being received on a connection: the bytes that arrived so far
/// and the length that its head declared.
pub struct Request {
    received: Vec<u8>,
    declared: usize,
}

impl Request {
    /// The bytes received so far.
    pub closed spec fn received_bytes(&self) -> Seq<u8> {
        self.received@
    }

    /// The length declared so far; 0 before a head declared one.
    pub closed spec fn declared_len(&self) -> usize {
        self.declared
    }

    /// A request of which nothing arrived yet.
    pub fn new() -> (r: Request)
        ensures
            r.received_bytes() == Seq::<u8>::empty(),
            r.declared_len() == 0,
    {
        Request { received: Vec::new(), declared: 0 }
    }

    /// The bytes received so far.
    pub fn received(&self) -> (r: &Vec<u8>)
        ensures
            r@ == self.received_bytes(),
    {
        &self.received
    }

    /// The length declared so far.
    pub fn declared(&self) -> (r: usize)
        ensures
            r == self.declared_len(),
    {
        self.declared
    }

    /// A read delivered `chunk`. A length declared within its first bytes
    /// replaces the one known; the bytes are added to those received. Returns
    /// the interest to re-arm: writing once as many bytes arrived as were
    /// declared, reading otherwise.
    pub fn on_read(&mut self, chunk: &Vec<u8>) -> (next: Interest)
        ensures
            final(self).declared_len() == (match declared_in(window_of(chunk@)) {
                Some(n) => n,
                None => old(self).declared_len(),
            }),
            final(self).received_bytes() == old(self).received_bytes() + chunk@,
            next == (if final(self).received_bytes().len() >= final(self).declared_len() {
                Interest::Write
            } else {
                Interest::Read
            }),
    {
        let mut window: Vec<u8> = Vec::new();
        let mut i: usize = 0;
        while i < chunk.len() && i < HEADER_WINDOW
            invariant
                i <= chunk.len(),
                i <= HEADER_WINDOW,
                window@ == chunk@.subrange(0, i as int),
            decreases chunk.len() - i,
        {
            window.push(chunk[i]);
            i = i + 1;
            proof {
                assert(window@ =~= chunk@.subrange(0, i as int));
            }
        }
        proof {
            assert(window@ =~= window_of(chunk@));
        }
        match declared_length(&window) {
            Some(n) => self.declared = n,
            None => {},
        }
        let ghost before = self.received@;
        let mut j: usize = 0;
        while j < chunk.len()
            invariant
                j <= chunk.len(),
                self.received@ == before + chunk@.subrange(0, j as int),
                self.declared == (match declared_in(window_of(chunk@)) {
                    Some(n) => n,
                    None => old(self).declared,
                }),
            decreases chunk.len() - j,
        {
            self.received.push(chunk[j]);
            j = j + 1;
            proof {
                assert(self.received@ =~= before + chunk@.subrange(0, j as int));
            }
        }
        proof {
            assert(chunk@.subrange(0, j as int) =~= chunk@);
        }
        if self.received.len() >= self.declared {
            Interest::Write
        } else {
            Interest::Read
        }
    }
}

} // verus!
