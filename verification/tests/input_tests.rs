use pal_forth::input::InputError;
use pal_forth::input::WordStream;

/// A source that gives its bytes in pieces as large as the buffer has room.
struct Source<'a> {
    bytes: &'a [u8],
    at: usize,
}

fn source(bytes: &[u8]) -> Source<'_> {
    Source { bytes, at: 0 }
}

fn fill_from<const N: usize>(
    rdr: &mut WordStream<N>,
    src: &mut Source<'_>,
) -> Result<usize, InputError> {
    let room = rdr.fill_room()?;
    if room == 0 {
        return Ok(0);
    }
    let n = room.min(src.bytes.len() - src.at);
    let added = rdr.fill_done(&src.bytes[src.at..src.at + n])?;
    src.at += n;
    Ok(added)
}

fn peek_from<const N: usize>(
    rdr: &mut WordStream<N>,
    src: &mut Source<'_>,
) -> Result<Option<String>, InputError> {
    loop {
        match rdr.scan()? {
            Some(word) => return Ok(Some(rdr.text(&word).unwrap().to_string())),
            None => {
                if fill_from(rdr, src)? == 0 {
                    return Ok(None);
                }
            }
        }
    }
}

fn next_word_from<const N: usize>(
    rdr: &mut WordStream<N>,
    src: &mut Source<'_>,
) -> Result<Option<String>, InputError> {
    loop {
        match rdr.take_word()? {
            Some(word) => return Ok(Some(rdr.text(&word).unwrap().to_string())),
            None => {
                if fill_from(rdr, src)? == 0 {
                    return Ok(None);
                }
            }
        }
    }
}

#[test]
fn refill_with_incomplete_utf8_is_ok() {
    let src = "αβγ δεζ "; // two words + space
    let bytes = src.as_bytes();

    //explicit per-token byte lengths
    let mut parts = src.split_whitespace();
    let first = parts.next().unwrap();
    let second = parts.next().unwrap();
    assert_eq!(first.as_bytes().len(), 6);
    assert_eq!(second.as_bytes().len(), 6);

    //choose a buffer which would require a memove
    let mut rdr = WordStream::<9>::new();
    let mut cursor = source(bytes);

    assert_eq!(peek_from(&mut rdr, &mut cursor).unwrap(), Some(first.to_string()));
    assert_eq!(next_word_from(&mut rdr, &mut cursor).unwrap(), Some(first.to_string()));
    assert_eq!(next_word_from(&mut rdr, &mut cursor).unwrap(), Some(second.to_string()));
    assert_eq!(next_word_from(&mut rdr, &mut cursor).unwrap(), None);
}

#[test]
fn eof_with_incomplete_seq_errors() {
    let bad = b"\xE2\x82"; // first two bytes of '€'
    let mut rdr = WordStream::<8>::new();
    let mut cursor = source(bad);

    let err = next_word_from(&mut rdr, &mut cursor).unwrap_err();
    assert_eq!(err, InputError::InvalidData);
}

#[test]
fn words_are_separated_by_any_whitespace() {
    let text = "  one\ttwo\u{2003}three\n\n four\u{a0}\u{3000}";
    let mut rdr = WordStream::<64>::new();
    let mut cursor = source(text.as_bytes());
    let mut words = Vec::new();
    while let Some(w) = next_word_from(&mut rdr, &mut cursor).unwrap() {
        words.push(w);
    }
    assert_eq!(words, vec!["one", "two", "three", "four"]);
}

#[test]
fn no_word_before_the_source_ends() {
    // the buffer holds "abc" and the source has not ended: the word may go on
    let mut rdr = WordStream::<16>::new();
    assert_eq!(rdr.fill_room(), Ok(16));
    assert_eq!(rdr.fill_done(b"abc"), Ok(3));
    assert_eq!(rdr.scan(), Ok(None));
    // more of the same word, then a separator
    assert_eq!(rdr.fill_room(), Ok(13));
    assert_eq!(rdr.fill_done(b"de f"), Ok(4));
    let word = rdr.take_word().unwrap().unwrap();
    assert_eq!(rdr.text(&word), Some("abcde"));
    // "f" is unfinished until the source ends
    assert_eq!(rdr.scan(), Ok(None));
    assert_eq!(rdr.fill_done(b""), Ok(0));
    let word = rdr.take_word().unwrap().unwrap();
    assert_eq!(rdr.text(&word), Some("f"));
    assert_eq!(rdr.take_word(), Ok(None));
    // an ended source is not asked again
    assert_eq!(rdr.fill_room(), Ok(0));
}

#[test]
fn a_word_longer_than_the_buffer_overflows() {
    let mut rdr = WordStream::<4>::new();
    assert_eq!(rdr.fill_room(), Ok(4));
    assert_eq!(rdr.fill_done(b"abcd"), Ok(4));
    assert_eq!(rdr.scan(), Ok(None));
    assert_eq!(rdr.fill_room(), Err(InputError::BufferOverflow));
}

#[test]
fn a_byte_that_is_never_utf8_is_an_error_at_once() {
    let mut rdr = WordStream::<8>::new();
    assert_eq!(rdr.fill_room(), Ok(8));
    assert_eq!(rdr.fill_done(b"ab\xFFcd "), Ok(6));
    assert_eq!(rdr.scan(), Err(InputError::InvalidData));
}

#[test]
fn shift_moves_pending_bytes_to_the_front() {
    let mut rdr = WordStream::<8>::new();
    assert_eq!(rdr.fill_done(b"ab cdefg"), Ok(8));
    let word = rdr.take_word().unwrap().unwrap();
    assert_eq!(rdr.text(&word), Some("ab"));
    assert_eq!(rdr.scan(), Ok(None));
    assert_eq!(rdr.start, 3);
    assert_eq!(rdr.len, 5);
    // the pending bytes end at the end of the storage: a fill shifts them
    assert_eq!(rdr.fill_room(), Ok(3));
    assert_eq!(rdr.start, 0);
    assert_eq!(rdr.remainder(), b"");
    assert_eq!(&rdr.buf[..5], b"cdefg");
}
