//! The buffer of the word reader: bytes come in from a source in pieces,
//! are validated as UTF-8 as far as they go, and leave as words that were
//! separated by runs of whitespace. Reading the source is left to the caller.
use crate::lex::utf8_text;
use crate::lex::DelayedSlice;
use crate::stack::make_storage;
use vstd::prelude::*;
use vstd::string::StringSliceAdditionalSpecFns;
use vstd::utf8::decode_utf8;
use vstd::utf8::encode_utf8;
use vstd::utf8::valid_utf8;

verus! {

/// Why the word reader stopped.
#[derive(Debug, Clone, Copy, PartialEq, Eq)]
pub enum InputError {
    /// The input is not UTF-8.
    InvalidData,
    /// A word is longer than the buffer.
    BufferOverflow,
}

/// Whether the character is whitespace: it has the Unicode property
/// White_Space, which is what `char::is_whitespace` of std tests.
pub open spec fn is_space(c: char) -> bool {
    ||| 0x09 <= c as u32 <= 0x0D
    ||| c as u32 == 0x20
    ||| c as u32 == 0x85
    ||| c as u32 == 0xA0
    ||| c as u32 == 0x1680
    ||| 0x2000 <= c as u32 <= 0x200A
    ||| c as u32 == 0x2028
    ||| c as u32 == 0x2029
    ||| c as u32 == 0x202F
    ||| c as u32 == 0x205F
    ||| c as u32 == 0x3000
}

/// Whether the bytes can never become UTF-8, whatever follows them. Bytes
/// that end in the middle of a character are not broken: the rest of the
/// character may still come.
pub open spec fn utf8_broken(bytes: Seq<u8>) -> bool {
    !exists|more: Seq<u8>| #[trigger] valid_utf8(bytes + more)
}

/// The greatest length up to `n` of a beginning of `bytes` that is valid
/// UTF-8.
pub open spec fn valid_upto(bytes: Seq<u8>, n: nat) -> nat
    decreases n,
{
    if n == 0 || valid_utf8(bytes.take(n as int)) {
        n
    } else {
        valid_upto(bytes, (n - 1) as nat)
    }
}

/// The length of the longest beginning of `bytes` that is valid UTF-8.
pub open spec fn longest_valid(bytes: Seq<u8>) -> nat {
    valid_upto(bytes, bytes.len())
}

/// The number of whitespace characters that `chars` begins with.
pub open spec fn space_run(chars: Seq<char>) -> nat
    decreases chars.len(),
{
    if chars.len() == 0 || !is_space(chars[0]) {
        0
    } else {
        1 + space_run(chars.drop_first())
    }
}

/// The number of characters other than whitespace that `chars` begins with.
pub open spec fn word_run(chars: Seq<char>) -> nat
    decreases chars.len(),
{
    if chars.len() == 0 || is_space(chars[0]) {
        0
    } else {
        1 + word_run(chars.drop_first())
    }
}

/// The number of bytes that the first `n` characters take in UTF-8.
pub open spec fn bytes_of(chars: Seq<char>, n: nat) -> nat {
    encode_utf8(chars.take(n as int)).len()
}

/// `core::str::from_utf8` of std, with `valid_up_to` and `error_len` of its
/// error: how far the bytes are valid UTF-8, and whether the failure is a
/// byte that no UTF-8 text holds there (`error_len` is `Some`) and not just
/// input that ends in the middle of a character.
#[verifier::external_body]
fn utf8_progress(bytes: &[u8]) -> (r: (usize, bool))
    ensures
        r.0 == longest_valid(bytes@),
        r.1 == (!valid_utf8(bytes@) && utf8_broken(bytes@)),
{
    match core::str::from_utf8(bytes) {
        Ok(_) => (bytes.len(), false),
        Err(e) => (e.valid_up_to(), e.error_len().is_some()),
    }
}

/// `str::trim_start` of std: the text without the whitespace that it begins
/// with.
#[verifier::external_body]
fn trim_start(s: &str) -> (r: &str)
    ensures
        r@ == s@.skip(space_run(s@) as int),
{
    s.trim_start()
}

/// The number of bytes that the whitespace at the beginning of the text
/// takes.
fn leading_spaces(s: &str) -> (k: usize)
    ensures
        k == bytes_of(s@, space_run(s@)),
{
    let rest = trim_start(s);
    proof {
        lemma_runs(s@);
        lemma_encode_split(s@, space_run(s@));
        assert(s.spec_bytes() == encode_utf8(s@));
        assert(rest.spec_bytes() == encode_utf8(s@.skip(space_run(s@) as int)));
        assert(encode_utf8(s@).len() == bytes_of(s@, space_run(s@)) + encode_utf8(
            s@.skip(space_run(s@) as int),
        ).len());
    }
    let whole: usize = s.as_bytes().len();
    let kept: usize = rest.as_bytes().len();
    whole - kept
}

/// `str::find` of std with `char::is_whitespace`: the byte index of the first
/// whitespace character, if there is one.
#[verifier::external_body]
fn first_space(s: &str) -> (r: Option<usize>)
    ensures
        r == (if word_run(s@) < s@.len() {
            Some(bytes_of(s@, word_run(s@)) as usize)
        } else {
            None
        }),
{
    s.find(char::is_whitespace)
}

/// A blank, a tab and a line feed are whitespace, and a letter is not: in
/// `a b` the first word is `a`.
pub proof fn lemma_blank_separates()
    ensures
        is_space(' '),
        is_space('\t'),
        is_space('\n'),
        !is_space('a'),
        word_run(seq!['a', ' ', 'b']) == 1,
        space_run(seq![' ', '\t', 'b']) == 2,
{
    reveal_with_fuel(word_run, 3);
    reveal_with_fuel(space_run, 4);
    let text = seq!['a', ' ', 'b'];
    assert(text.drop_first()[0] == ' ');
    let lead = seq![' ', '\t', 'b'];
    assert(lead.drop_first()[0] == '\t');
    assert(lead.drop_first().drop_first()[0] == 'b');
}

/// The beginning of a UTF-8 text is not broken; so UTF-8 text itself is
/// not, and neither are no bytes at all.
pub proof fn lemma_not_broken(bytes: Seq<u8>, more: Seq<u8>)
    requires
        valid_utf8(bytes + more),
    ensures
        !utf8_broken(bytes),
        !utf8_broken(bytes + more),
        !utf8_broken(Seq::<u8>::empty()),
{
    let all = bytes + more;
    assert(all + Seq::<u8>::empty() =~= all);
    assert(valid_utf8(all + Seq::<u8>::empty()));
    assert(Seq::<u8>::empty() + all =~= all);
    assert(valid_utf8(Seq::<u8>::empty() + all));
}

/// The runs are no longer than the text.
pub proof fn lemma_runs(chars: Seq<char>)
    ensures
        space_run(chars) <= chars.len(),
        word_run(chars) <= chars.len(),
    decreases chars.len(),
{
    if chars.len() > 0 {
        lemma_runs(chars.drop_first());
    }
}

/// The character after the whitespace at the beginning of a text is no
/// whitespace.
pub proof fn lemma_space_run_stops(chars: Seq<char>)
    ensures
        space_run(chars) < chars.len() ==> !is_space(chars[space_run(chars) as int]),
        space_run(chars) < chars.len() ==> word_run(chars.skip(space_run(chars) as int)) >= 1,
    decreases chars.len(),
{
    if chars.len() > 0 && is_space(chars[0]) {
        let rest = chars.drop_first();
        lemma_space_run_stops(rest);
        lemma_runs(rest);
        if space_run(chars) < chars.len() {
            assert(chars.skip(space_run(chars) as int) =~= rest.skip(space_run(rest) as int));
        }
    } else if chars.len() > 0 {
        assert(chars.skip(0) =~= chars);
    }
}

/// The encoding of a text is the encoding of its first `n` characters and
/// then that of the rest.
pub proof fn lemma_encode_split(chars: Seq<char>, n: nat)
    requires
        n <= chars.len(),
    ensures
        encode_utf8(chars) == encode_utf8(chars.take(n as int)) + encode_utf8(
            chars.skip(n as int),
        ),
        bytes_of(chars, n) <= encode_utf8(chars).len(),
    decreases n,
{
    if n == 0 {
        assert(chars.take(0) =~= Seq::<char>::empty());
        assert(chars.skip(0) =~= chars);
        assert(encode_utf8(chars) =~= encode_utf8(chars.take(0)) + encode_utf8(chars.skip(0)));
    } else {
        let rest = chars.drop_first();
        lemma_encode_split(rest, (n - 1) as nat);
        assert(chars.take(n as int).drop_first() =~= rest.take(n - 1));
        assert(chars.skip(n as int) =~= rest.skip(n - 1));
        assert(chars.take(n as int)[0] == chars[0]);
        assert(encode_utf8(chars) =~= encode_utf8(chars.take(n as int)) + encode_utf8(
            chars.skip(n as int),
        ));
    }
}

/// The longest valid beginning is valid and no longer than the bytes.
pub proof fn lemma_longest_valid(bytes: Seq<u8>, n: nat)
    requires
        n <= bytes.len(),
    ensures
        valid_upto(bytes, n) <= n,
        valid_utf8(bytes.take(valid_upto(bytes, n) as int)),
        valid_utf8(bytes.take(n as int)) ==> valid_upto(bytes, n) == n,
    decreases n,
{
    if n == 0 {
        assert(bytes.take(0).len() == 0);
    } else if !valid_utf8(bytes.take(n as int)) {
        lemma_longest_valid(bytes, (n - 1) as nat);
    }
}

/// The mathematical model of the buffer.
pub struct InputModel {
    /// The storage.
    pub buf: Seq<u8>,
    /// Where the bytes that were not yet handed out begin.
    pub start: nat,
    /// How many of them are known to be valid UTF-8.
    pub valid_len: nat,
    /// How many of them there are.
    pub len: nat,
    /// The source has ended.
    pub r_done: bool,
}

impl InputModel {
    /// The bytes that were not yet handed out.
    pub open spec fn pending(self) -> Seq<u8> {
        self.buf.subrange(self.start as int, (self.start + self.len) as int)
    }

    /// The bytes that are known to be valid UTF-8.
    pub open spec fn valid(self) -> Seq<u8> {
        self.buf.subrange(self.start as int, (self.start + self.valid_len) as int)
    }

    /// The bytes that were not yet looked at.
    pub open spec fn unchecked(self) -> Seq<u8> {
        self.buf.subrange((self.start + self.valid_len) as int, (self.start + self.len) as int)
    }

    pub open spec fn wf(self) -> bool {
        &&& self.start + self.len <= self.buf.len()
        &&& self.valid_len <= self.len
        &&& valid_utf8(self.valid())
    }

    /// The buffer after the bytes that were not yet looked at were validated
    /// as far as they go.
    pub open spec fn extended(self) -> InputModel {
        InputModel { valid_len: self.valid_len + longest_valid(self.unchecked()), ..self }
    }

    /// The buffer with the first `n` pending bytes handed out.
    pub open spec fn consumed(self, n: nat) -> InputModel {
        InputModel {
            start: self.start + n,
            valid_len: (self.valid_len - n) as nat,
            len: (self.len - n) as nat,
            ..self
        }
    }

    /// The buffer with the pending bytes moved to the beginning of the
    /// storage.
    pub open spec fn shifted(self) -> InputModel {
        InputModel {
            buf: Seq::new(
                self.buf.len(),
                |i: int|
                    if i < self.len {
                        self.buf[self.start + i]
                    } else {
                        self.buf[i]
                    },
            ),
            start: 0,
            ..self
        }
    }

    /// The text that is known to be valid.
    pub open spec fn text(self) -> Seq<char> {
        decode_utf8(self.valid())
    }

    /// The buffer after a scan: the whitespace at the beginning of the valid
    /// text is handed out, and an empty buffer starts again at the beginning
    /// of the storage.
    pub open spec fn scanned(self) -> InputModel {
        let after = self.consumed(bytes_of(self.text(), space_run(self.text())));
        if space_run(self.text()) == self.text().len() && after.len == 0 {
            InputModel { start: 0, ..after }
        } else {
            after
        }
    }

    /// The word that a scan finds, as a range of the storage: the run of
    /// characters other than whitespace that follows the whitespace at the
    /// beginning of the valid text. There is none where the text holds
    /// whitespace only, and none where the run goes up to the end of the
    /// text and the source has not ended: the word may go on.
    pub open spec fn found(self) -> Option<DelayedSlice> {
        let rest = self.text().skip(space_run(self.text()) as int);
        if rest.len() == 0 || (word_run(rest) == rest.len() && !self.r_done) {
            None
        } else {
            Some(
                DelayedSlice {
                    start: (self.start + bytes_of(self.text(), space_run(self.text()))) as usize,
                    len: bytes_of(rest, word_run(rest)) as usize,
                },
            )
        }
    }
}

impl InputModel {
    /// The buffer with `bytes` put behind the pending bytes.
    pub open spec fn appended(self, bytes: Seq<u8>) -> InputModel {
        InputModel {
            buf: Seq::new(
                self.buf.len(),
                |i: int|
                    if self.start + self.len <= i < self.start + self.len + bytes.len() {
                        bytes[i - (self.start + self.len)]
                    } else {
                        self.buf[i]
                    },
            ),
            len: self.len + bytes.len(),
            ..self
        }
    }

    /// The buffer after the source gave `bytes`. Where it gave none, it has
    /// ended, and what is pending is validated to its end.
    pub open spec fn filled(self, bytes: Seq<u8>) -> InputModel {
        if bytes.len() == 0 {
            (InputModel { r_done: true, ..self }).extended()
        } else {
            self.appended(bytes)
        }
    }

    /// What a fill reports after the source gave `bytes`: how many they are,
    /// or an error where the source has ended and what is pending is not
    /// UTF-8 to its end.
    pub open spec fn fill_result(self, bytes: Seq<u8>) -> Result<usize, InputError> {
        if bytes.len() != 0 {
            Ok(bytes.len() as usize)
        } else if self.extended().valid_len != self.len {
            Err(InputError::InvalidData)
        } else {
            Ok(0usize)
        }
    }
}

/// A text takes at least one byte for each of its characters.
pub proof fn lemma_encode_len(chars: Seq<char>)
    ensures
        encode_utf8(chars).len() >= chars.len(),
    decreases chars.len(),
{
    if chars.len() > 0 {
        lemma_encode_len(chars.drop_first());
    }
}

/// The first `n` characters take all the bytes of a text only where they are
/// all its characters.
pub proof fn lemma_bytes_of_all(chars: Seq<char>, n: nat)
    requires
        n <= chars.len(),
    ensures
        bytes_of(chars, n) == encode_utf8(chars).len() <==> n == chars.len(),
{
    lemma_encode_split(chars, n);
    lemma_encode_len(chars.skip(n as int));
    if n == chars.len() {
        assert(chars.take(n as int) =~= chars);
    }
}

/// The buffer of a word reader, of `N` bytes.
pub struct WordStream<const N: usize> {
    pub buf: Vec<u8>,
    pub r_done: bool,
    pub start: usize,
    pub valid_len: usize,
    pub len: usize,
}

impl<const N: usize> View for WordStream<N> {
    type V = InputModel;

    open spec fn view(&self) -> InputModel {
        InputModel {
            buf: self.buf@,
            start: self.start as nat,
            valid_len: self.valid_len as nat,
            len: self.len as nat,
            r_done: self.r_done,
        }
    }
}

impl<const N: usize> WordStream<N> {
    pub open spec fn wf(&self) -> bool {
        &&& self@.wf()
        &&& self@.buf.len() == N
    }

    /// An empty buffer for a source that has not ended.
    pub fn new() -> (s: Self)
        ensures
            s.wf(),
            s@.start == 0,
            s@.len == 0,
            s@.valid_len == 0,
            !s@.r_done,
    {
        let s = WordStream { buf: make_storage(N, 0u8), r_done: false, start: 0, valid_len: 0, len: 0 };
        assert(s@.valid() =~= Seq::<u8>::empty());
        s
    }

    /// Moves the pending bytes to the beginning of the storage.
    pub fn shift_buffer(&mut self)
        requires
            old(self).wf(),
        ensures
            final(self).wf(),
            final(self)@ == old(self)@.shifted(),
            final(self)@.pending() == old(self)@.pending(),
            final(self)@.valid() == old(self)@.valid(),
            final(self)@.unchecked() == old(self)@.unchecked(),
    {
        if self.start == 0 {
            assert(self@.buf =~= old(self)@.shifted().buf);
            return;
        }
        let from: usize = self.start;
        let n: usize = self.len;
        let total: usize = self.buf.len();
        let mut i: usize = 0;
        while i < n
            invariant
                i <= n,
                total == self.buf@.len(),
                n == old(self).len,
                from == old(self).start,
                from > 0,
                from + n <= self.buf@.len(),
                self.buf@.len() == old(self).buf@.len(),
                self.start == old(self).start,
                self.len == old(self).len,
                self.valid_len == old(self).valid_len,
                self.r_done == old(self).r_done,
                forall|k: int|
                    0 <= k < self.buf@.len() ==> self.buf@[k] == (if k < i {
                        old(self).buf@[from + k]
                    } else {
                        old(self).buf@[k]
                    }),
            decreases n - i,
        {
            let b: u8 = self.buf[from + i];
            self.buf.set(i, b);
            i += 1;
        }
        self.start = 0;
        assert(self@.buf =~= old(self)@.shifted().buf);
        assert(self@.pending() =~= old(self)@.pending());
        assert(self@.valid() =~= old(self)@.valid());
        assert(self@.unchecked() =~= old(self)@.unchecked());
    }

    /// The bytes that were not yet looked at.
    pub fn remainder(&self) -> (r: &[u8])
        requires
            self.wf(),
        ensures
            r@ == self@.unchecked(),
    {
        vstd::slice::slice_subrange(
            self.buf.as_slice(),
            self.start + self.valid_len,
            self.start + self.len,
        )
    }

    /// Validates the bytes that were not yet looked at, as far as they go.
    /// Bytes that can never become UTF-8 are an error; a character that is
    /// cut off at the end is none.
    pub fn extend_valid(&mut self) -> (r: Result<(), InputError>)
        requires
            old(self).wf(),
        ensures
            final(self).wf(),
            final(self)@ == old(self)@.extended(),
            r is Err <==> !valid_utf8(old(self)@.unchecked()) && utf8_broken(
                old(self)@.unchecked(),
            ),
            r is Err ==> r == Err::<(), InputError>(InputError::InvalidData),
    {
        let (more, broken) = utf8_progress(self.remainder());
        proof {
            let rest = self@.unchecked();
            lemma_longest_valid(rest, rest.len());
            vstd::utf8::valid_utf8_concat(self@.valid(), rest.take(more as int));
            assert(self@.extended().valid() =~= self@.valid() + rest.take(more as int));
        }
        self.valid_len = self.valid_len + more;
        if broken {
            Err(InputError::InvalidData)
        } else {
            Ok(())
        }
    }

    /// Makes room for a fill and gives the number of bytes that the source
    /// may give: none where the source has ended. A buffer that is full of
    /// one unfinished word is an error.
    pub fn fill_room(&mut self) -> (r: Result<usize, InputError>)
        requires
            old(self).wf(),
        ensures
            final(self).wf(),
            old(self)@.r_done ==> r == Ok::<usize, InputError>(0usize) && final(self)@ == old(
                self,
            )@,
            !old(self)@.r_done && old(self)@.len == N ==> r == Err::<usize, InputError>(
                InputError::BufferOverflow,
            ) && final(self)@ == old(self)@,
            !old(self)@.r_done && old(self)@.len < N ==> {
                &&& final(self)@ == (if old(self)@.start + old(self)@.len == N {
                    old(self)@.shifted()
                } else {
                    old(self)@
                })
                &&& r == Ok::<usize, InputError>(
                    (N - final(self)@.start - final(self)@.len) as usize,
                )
                &&& final(self)@.start + final(self)@.len < N
            },
    {
        if self.r_done {
            return Ok(0);
        }
        if self.len == N {
            return Err(InputError::BufferOverflow);
        }
        if self.start + self.len == N {
            self.shift_buffer();
        }
        Ok(N - self.start - self.len)
    }

    /// Takes in what the source gave. Where it gave nothing, the source has
    /// ended, and what is pending must be UTF-8 to its end.
    pub fn fill_done(&mut self, bytes: &[u8]) -> (r: Result<usize, InputError>)
        requires
            old(self).wf(),
            !old(self)@.r_done,
            old(self)@.start + old(self)@.len + bytes@.len() <= N,
        ensures
            final(self).wf(),
            final(self)@ == old(self)@.filled(bytes@),
            r == old(self)@.fill_result(bytes@),
    {
        let added: usize = bytes.len();
        if added == 0 {
            self.r_done = true;
            proof {
                let rest = old(self)@.unchecked();
                lemma_longest_valid(rest, rest.len());
                assert(rest.take(rest.len() as int) =~= rest);
            }
            if self.extend_valid().is_err() {
                return Err(InputError::InvalidData);
            }
            if self.valid_len != self.len {
                return Err(InputError::InvalidData);
            }
            return Ok(0);
        }
        let at: usize = self.start + self.len;
        let mut i: usize = 0;
        while i < added
            invariant
                i <= added,
                added == bytes@.len(),
                at == old(self).start + old(self).len,
                at + added <= N,
                self.buf@.len() == N,
                self.start == old(self).start,
                self.len == old(self).len,
                self.valid_len == old(self).valid_len,
                self.r_done == old(self).r_done,
                forall|k: int|
                    0 <= k < self.buf@.len() ==> self.buf@[k] == (if at <= k < at + i {
                        bytes@[k - at]
                    } else {
                        old(self).buf@[k]
                    }),
            decreases added - i,
        {
            self.buf.set(at + i, bytes[i]);
            i += 1;
        }
        self.len = self.len + added;
        assert(self@.buf =~= old(self)@.appended(bytes@).buf);
        assert(self@.valid() =~= old(self)@.valid());
        Ok(added)
    }

    /// Hands out the first `total_len` pending bytes, which must end where a
    /// character of the valid text ends.
    pub fn consume_bytes(&mut self, total_len: usize)
        requires
            old(self).wf(),
            total_len <= old(self)@.valid_len,
            valid_utf8(old(self)@.valid().skip(total_len as int)),
        ensures
            final(self).wf(),
            final(self)@ == old(self)@.consumed(total_len as nat),
    {
        self.len = self.len - total_len;
        self.valid_len = self.valid_len - total_len;
        self.start = self.start + total_len;
        assert(self@.valid() =~= old(self)@.valid().skip(total_len as int));
    }

    /// Looks for the next word in what the buffer holds, without reading the
    /// source. The whitespace before the word is handed out; the word stays.
    /// Gives the word's place in the storage.
    pub fn scan(&mut self) -> (r: Result<Option<DelayedSlice>, InputError>)
        requires
            old(self).wf(),
        ensures
            final(self).wf(),
            r is Err <==> !valid_utf8(old(self)@.unchecked()) && utf8_broken(
                old(self)@.unchecked(),
            ),
            match r {
                Err(e) => e == InputError::InvalidData && final(self)@ == old(self)@.extended(),
                Ok(word) => {
                    &&& final(self)@ == old(self)@.extended().scanned()
                    &&& word == old(self)@.extended().found()
                    &&& word matches Some(w) ==> {
                        &&& w.start() == final(self)@.start
                        &&& w.len() <= final(self)@.valid_len
                        &&& w.len() > 0
                        &&& valid_utf8(final(self)@.valid().take(w.len() as int))
                        &&& valid_utf8(final(self)@.valid().skip(w.len() as int))
                    }
                },
            },
    {
        match self.extend_valid() {
            Err(e) => {
                return Err(InputError::InvalidData);
            },
            Ok(_) => {},
        }
        let ghost mid = self@;
        let ghost chars = mid.text();
        let ghost spaces = space_run(chars);
        let all: usize = self.valid_len;
        let k: usize = match utf8_text(
            vstd::slice::slice_subrange(self.buf.as_slice(), self.start, self.start + all),
        ) {
            Some(text) => {
                proof {
                    vstd::utf8::encode_utf8_decode_utf8(text@);
                    assert(text.spec_bytes() =~= mid.valid());
                    assert(text@ == chars);
                }
                leading_spaces(text)
            },
            None => {
                assert(self.buf@.subrange(self.start as int, self.start + all) =~= mid.valid());
                0
            },
        };
        proof {
            vstd::utf8::decode_utf8_encode_utf8(mid.valid());
            lemma_runs(chars);
            lemma_encode_split(chars, spaces);
            lemma_bytes_of_all(chars, spaces);
            vstd::utf8::encode_utf8_valid_utf8(chars.skip(spaces as int));
            vstd::utf8::encode_utf8_valid_utf8(chars.take(spaces as int));
            assert(mid.valid().skip(k as int) =~= encode_utf8(chars.skip(spaces as int)));
        }
        self.consume_bytes(k);
        let ghost rest = chars.skip(spaces as int);
        proof {
            vstd::utf8::encode_utf8_decode_utf8(rest);
            assert(self@.valid() =~= encode_utf8(rest));
            assert(self@.text() == rest);
        }
        let ghost after = self@;
        if k == all {
            if self.len == 0 {
                self.start = 0;
                assert(self@.valid() =~= Seq::<u8>::empty());
            }
            return Ok(None);
        }
        let end: Option<usize> = match utf8_text(
            vstd::slice::slice_subrange(
                self.buf.as_slice(),
                self.start,
                self.start + self.valid_len,
            ),
        ) {
            Some(text) => {
                proof {
                    vstd::utf8::encode_utf8_decode_utf8(text@);
                    assert(text.spec_bytes() =~= after.valid());
                    assert(text@ == rest);
                }
                first_space(text)
            },
            None => {
                assert(self.buf@.subrange(self.start as int, self.start + self.valid_len)
                    =~= after.valid());
                None
            },
        };
        proof {
            lemma_runs(rest);
            lemma_space_run_stops(chars);
            lemma_encode_split(rest, word_run(rest));
            lemma_bytes_of_all(rest, word_run(rest));
            lemma_encode_len(rest.take(word_run(rest) as int));
            vstd::utf8::encode_utf8_valid_utf8(rest.skip(word_run(rest) as int));
            vstd::utf8::encode_utf8_valid_utf8(rest.take(word_run(rest) as int));
            assert(self@.valid() =~= encode_utf8(rest));
            assert(self@.valid().skip(bytes_of(rest, word_run(rest)) as int) =~= encode_utf8(
                rest.skip(word_run(rest) as int),
            ));
            assert(self@.valid().take(bytes_of(rest, word_run(rest)) as int) =~= encode_utf8(
                rest.take(word_run(rest) as int),
            ));
        }
        match end {
            Some(w) => Ok(Some(DelayedSlice { start: self.start, len: w })),
            None => {
                if !self.r_done {
                    Ok(None)
                } else {
                    Ok(Some(DelayedSlice { start: self.start, len: self.valid_len }))
                }
            },
        }
    }

    /// The next word in what the buffer holds, handed out: a later scan
    /// finds the word after it.
    pub fn take_word(&mut self) -> (r: Result<Option<DelayedSlice>, InputError>)
        requires
            old(self).wf(),
        ensures
            final(self).wf(),
            r is Err <==> !valid_utf8(old(self)@.unchecked()) && utf8_broken(
                old(self)@.unchecked(),
            ),
            match r {
                Err(e) => e == InputError::InvalidData && final(self)@ == old(self)@.extended(),
                Ok(word) => {
                    &&& word == old(self)@.extended().found()
                    &&& final(self)@ == (match word {
                        Some(w) => old(self)@.extended().scanned().consumed(w.len() as nat),
                        None => old(self)@.extended().scanned(),
                    })
                    &&& word matches Some(w) ==> valid_utf8(w.of(final(self)@.buf))
                },
            },
    {
        match self.scan() {
            Err(e) => Err(e),
            Ok(None) => Ok(None),
            Ok(Some(w)) => {
                assert(w.of(self@.buf) =~= self@.valid().take(w.len() as int));
                self.consume_bytes(w.count());
                Ok(Some(w))
            },
        }
    }

    /// The text at a place in the storage, where the bytes there are UTF-8.
    pub fn text(&self, word: &DelayedSlice) -> (r: Option<&str>)
        ensures
            match r {
                Some(s) => {
                    &&& word.within(self@.buf.len())
                    &&& valid_utf8(word.of(self@.buf))
                    &&& s.spec_bytes() == word.of(self@.buf)
                },
                None => !word.within(self@.buf.len()) || !valid_utf8(word.of(self@.buf)),
            },
    {
        let total: usize = self.buf.len();
        if word.first() > total || word.count() > total - word.first() {
            None
        } else {
            utf8_text(
                vstd::slice::slice_subrange(
                    self.buf.as_slice(),
                    word.first(),
                    word.first() + word.count(),
                ),
            )
        }
    }
}

} // verus!
