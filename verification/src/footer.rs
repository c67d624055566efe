//! Finding the metadata of a Parquet file.
//!
//! A Parquet file ends with its metadata and an eight byte footer, which holds
//! the length of the metadata. Reading it takes one request when enough of the
//! end of the file was asked for, and two otherwise. The requests themselves
//! are the caller's: [`begin_fetch`] says what to read first, and
//! [`fetch_parquet_metadata`] takes what was read and says what is next.

use vstd::prelude::*;
use vstd::slice::slice_subrange;
use vstd::string::StringExecFns;
use bytes::BytesMut;
use parquet::errors::ParquetError;
use parquet::file::metadata::ParquetMetaData;
use crate::compact::{can_decode, is_decodable};
use crate::error::{Error, ErrorView};
use crate::text::{concat3, decimal, decimal_text};

verus! {

/// The number of bytes of the footer.
pub const FOOTER_SIZE: usize = 8;

/// The metadata of a Parquet file, as the `parquet` crate holds it.
#[verifier::external_type_specification]
#[verifier::external_body]
pub struct ExParquetMetaData(ParquetMetaData);

/// The growable byte buffer of the `bytes` crate.
#[verifier::external_type_specification]
#[verifier::external_body]
pub struct ExBytesMut(BytesMut);

/// The bytes that a buffer holds.
pub uninterp spec fn buffered(buffer: BytesMut) -> Seq<u8>;

/// `BytesMut::with_capacity` gives an empty buffer. The allocation it makes is
/// limited to `isize::MAX` bytes.
pub assume_specification[ BytesMut::with_capacity ](capacity: usize) -> (buffer: BytesMut)
    requires
        capacity <= isize::MAX,
    ensures
        buffered(buffer) == Seq::<u8>::empty(),
;

/// `BufMut::put` on a `BytesMut` appends the bytes of a slice. A buffer holds
/// at most `isize::MAX` bytes.
#[verifier::external_body]
fn put(buffer: &mut BytesMut, bytes: &[u8])
    requires
        buffered(*old(buffer)).len() + bytes@.len() <= isize::MAX,
    ensures
        buffered(*final(buffer)) == buffered(*old(buffer)) + bytes@,
{
    bytes::BufMut::put(buffer, bytes)
}

/// `BytesMut::as_ref` borrows the bytes of a buffer.
#[verifier::external_body]
fn as_bytes(buffer: &BytesMut) -> (bytes: &[u8])
    ensures
        bytes@ == buffered(*buffer),
{
    buffer.as_ref()
}

/// The four bytes that end a Parquet file: `PAR1`.
pub open spec fn magic() -> Seq<u8> {
    seq![0x50u8, 0x41u8, 0x52u8, 0x31u8]
}

/// The length that a footer gives for the metadata before it, or `None` where
/// the bytes are no footer: four bytes, the least significant first, and the
/// magic number.
pub open spec fn footer_length(footer: Seq<u8>) -> Option<nat> {
    if footer.subrange(4, 8) == magic() {
        Some((footer[0] + footer[1] * 0x100 + footer[2] * 0x1_0000 + footer[3] * 0x100_0000) as nat)
    } else {
        None
    }
}

/// The error of the `parquet` crate for bytes that are no footer.
pub uninterp spec fn footer_error(footer: Seq<u8>) -> ParquetError;

/// `parquet::file::footer::decode_footer` reads the length out of a footer and
/// fails where the magic number is missing.
#[verifier::external_body]
fn decode_footer(footer: &[u8; 8]) -> (length: Result<usize, ParquetError>)
    ensures
        length is Ok <==> footer_length(footer@) is Some,
        length is Ok ==> footer_length(footer@) == Some(length->Ok_0 as nat),
        length is Err ==> length->Err_0 == footer_error(footer@),
{
    parquet::file::footer::decode_footer(footer)
}

/// What the `parquet` crate makes of the bytes of a file's metadata.
pub uninterp spec fn decoded_metadata(bytes: Seq<u8>) -> Result<ParquetMetaData, ParquetError>;

/// `parquet::file::footer::decode_metadata` decodes metadata; what it returns is
/// determined by the bytes. It panics on some bytes that a writer would not write, which
/// are left out. It calls itself for each level of nested columns, so that the stack limits
/// their depth.
pub assume_specification[ parquet::file::footer::decode_metadata ](
    metadata_read: &[u8],
) -> (metadata: Result<ParquetMetaData, ParquetError>)
    requires
        is_decodable(metadata_read@),
    ensures
        metadata == decoded_metadata(metadata_read@),
;

/// A range of bytes of a file.
#[derive(Clone, Copy, Debug, PartialEq, Eq, Structural)]
pub struct ByteRange {
    pub start: usize,
    /// The position after the last byte.
    pub end: usize,
}

/// What a fetch waits for.
#[derive(Debug)]
pub enum FetchState {
    /// The end of a file of `size` bytes, from `footer_start` on.
    Suffix { size: usize, footer_start: usize },
    /// The first part of `length` bytes of metadata, of which `suffix` holds the
    /// rest and the footer.
    Remaining { length: usize, suffix: Vec<u8> },
}

/// The next step of a fetch.
#[derive(Debug)]
pub enum FetchStep {
    /// Read these bytes and go on from this state.
    Read(ByteRange, FetchState),
    /// The metadata of the file.
    Done(ParquetMetaData),
}

/// What contracts say of a [`FetchState`].
pub enum FetchStateView {
    Suffix { size: int, footer_start: int },
    Remaining { length: int, suffix: Seq<u8> },
}

impl View for FetchState {
    type V = FetchStateView;

    open spec fn view(&self) -> FetchStateView {
        match self {
            FetchState::Suffix { size, footer_start } => FetchStateView::Suffix {
                size: *size as int,
                footer_start: *footer_start as int,
            },
            FetchState::Remaining { length, suffix } => FetchStateView::Remaining {
                length: *length as int,
                suffix: suffix@,
            },
        }
    }
}

/// Where the first request starts. Without a hint it covers the footer alone;
/// a hint is the number of bytes to read, and more than the file has reads the
/// whole file.
pub open spec fn first_read_start(size: int, size_hint: Option<usize>) -> int {
    match size_hint {
        Some(hint) => if hint as int <= size {
            size - hint
        } else {
            0
        },
        None => size - FOOTER_SIZE,
    }
}

/// The message for a file that is too small for a footer.
pub open spec fn too_small_for_footer(size: nat) -> Seq<char> {
    "file size of "@ + decimal(size) + " is less than footer"@
}

/// The message for a file that is too small for the metadata it announces.
pub open spec fn too_small_for_metadata(size: nat, length: nat) -> Seq<char> {
    "file size of "@ + decimal(size) + " is less than footer + metadata "@ + decimal(length + 8)
}

/// Starts to fetch the metadata of a file of `size` bytes. A size hint makes the
/// first request read that many bytes from the end of the file, so that a second
/// request may not be needed.
pub fn begin_fetch(size: usize, size_hint: Option<usize>) -> (step: Result<
    (ByteRange, FetchState),
    Error,
>)
    ensures
        step is Err <==> size < FOOTER_SIZE,
        step matches Err(error) ==> error@ == ErrorView::Execution(
            too_small_for_footer(size as nat),
        ),
        step matches Ok((range, state)) ==> {
            let footer_start = first_read_start(size as int, size_hint);
            &&& range.start == footer_start
            &&& range.end == size
            &&& state@ == (FetchStateView::Suffix { size: size as int, footer_start })
            &&& size_hint is None ==> range.end - range.start == 8
            &&& size_hint matches Some(hint) ==> range.end - range.start == (if hint < size {
                hint
            } else {
                size
            })
        },
{
    if size < FOOTER_SIZE {
        let digits: String = decimal_text(size as u64);
        return Err(
            Error::Execution(concat3("file size of ", digits.as_str(), " is less than footer")),
        );
    }
    let footer_start: usize = match size_hint {
        Some(hint) => if hint <= size {
            size - hint
        } else {
            0
        },
        None => size - FOOTER_SIZE,
    };
    Ok((ByteRange { start: footer_start, end: size }, FetchState::Suffix { size, footer_start }))
}

/// Where the metadata lies, once the end of the file was read.
#[derive(Clone, Copy, Debug, PartialEq, Eq, Structural)]
pub enum MetadataLocation {
    /// At these positions of the bytes that were read.
    Within { start: usize, end: usize },
    /// It has `length` bytes and starts before the bytes that were read; these
    /// bytes of the file are missing.
    Before { length: usize, missing: ByteRange },
}

/// The metadata length in the last eight bytes of a file.
pub open spec fn suffix_length(suffix: Seq<u8>) -> Option<nat> {
    footer_length(suffix.subrange(suffix.len() - FOOTER_SIZE, suffix.len() as int))
}

/// The error for the last eight bytes of a file where they are no footer.
pub open spec fn suffix_error(suffix: Seq<u8>) -> ErrorView {
    ErrorView::ParquetError(
        footer_error(suffix.subrange(suffix.len() - FOOTER_SIZE, suffix.len() as int)),
    )
}

/// What the end of a file says of the place of its metadata.
pub open spec fn located(size: int, footer_start: int, suffix: Seq<u8>) -> Result<
    MetadataLocation,
    ErrorView,
> {
    match suffix_length(suffix) {
        None => Err(suffix_error(suffix)),
        Some(length) => {
            let start = size - length - FOOTER_SIZE;
            if start < 0 {
                Err(ErrorView::Execution(too_small_for_metadata(size as nat, length)))
            } else if length > suffix.len() - FOOTER_SIZE {
                Ok(
                    MetadataLocation::Before {
                        length: length as usize,
                        missing: ByteRange { start: start as usize, end: footer_start as usize },
                    },
                )
            } else {
                Ok(
                    MetadataLocation::Within {
                        start: (start - footer_start) as usize,
                        end: (suffix.len() - FOOTER_SIZE) as usize,
                    },
                )
            }
        },
    }
}

/// Whether the bytes that were read can be the end of a file of `size` bytes
/// from `footer_start` on: they hold a footer, and metadata that lies within
/// them neither starts before them nor ends before it starts. Every reader that
/// returns the range it was asked for meets this, where the range holds the
/// footer.
pub open spec fn is_suffix(size: int, footer_start: int, suffix: Seq<u8>) -> bool {
    &&& suffix.len() >= FOOTER_SIZE
    &&& suffix_length(suffix) matches Some(length) ==> {
        let start = size - length - FOOTER_SIZE;
        start >= 0 && length <= suffix.len() - FOOTER_SIZE ==> footer_start <= start <= footer_start
            + suffix.len() - FOOTER_SIZE
    }
}

/// Reads the metadata length in the last eight bytes of a file.
fn read_footer(suffix: &[u8]) -> (length: Result<usize, ParquetError>)
    requires
        suffix@.len() >= FOOTER_SIZE,
    ensures
        length is Ok <==> suffix_length(suffix@) is Some,
        length is Ok ==> suffix_length(suffix@) == Some(length->Ok_0 as nat),
        length is Err ==> ErrorView::ParquetError(length->Err_0) == suffix_error(suffix@),
{
    let n: usize = suffix.len();
    let footer: [u8; 8] = [
        suffix[n - 8],
        suffix[n - 7],
        suffix[n - 6],
        suffix[n - 5],
        suffix[n - 4],
        suffix[n - 3],
        suffix[n - 2],
        suffix[n - 1],
    ];
    assert(footer@ =~= suffix@.subrange(n - FOOTER_SIZE, n as int));
    decode_footer(&footer)
}

/// Finds the metadata of a file of `size` bytes from its end, which was read from
/// `footer_start` on.
pub fn locate_metadata(size: usize, footer_start: usize, suffix: &[u8]) -> (location: Result<
    MetadataLocation,
    Error,
>)
    requires
        size >= FOOTER_SIZE,
        is_suffix(size as int, footer_start as int, suffix@),
    ensures
        match located(size as int, footer_start as int, suffix@) {
            Ok(place) => location == Ok::<MetadataLocation, Error>(place),
            Err(error) => location matches Err(e) && e@ == error,
        },
        location matches Ok(MetadataLocation::Within { start, end }) ==> start <= end
            <= suffix@.len(),
{
    let n: usize = suffix.len();
    let length: usize = match read_footer(suffix) {
        Ok(length) => length,
        Err(error) => {
            return Err(Error::ParquetError(error));
        },
    };
    if size - FOOTER_SIZE < length {
        let size_digits: String = decimal_text(size as u64);
        let need_digits: String = decimal_text(length as u64 + 8);
        let message: String = concat3(
            "file size of ",
            size_digits.as_str(),
            " is less than footer + metadata ",
        );
        return Err(Error::Execution(message.concat(need_digits.as_str())));
    }
    let start: usize = size - FOOTER_SIZE - length;
    if length > n - FOOTER_SIZE {
        Ok(
            MetadataLocation::Before {
                length,
                missing: ByteRange { start, end: footer_start },
            },
        )
    } else {
        Ok(MetadataLocation::Within { start: start - footer_start, end: n - FOOTER_SIZE })
    }
}

/// The metadata that two reads give: the first part, and the rest with the footer.
pub open spec fn assembled(remaining: Seq<u8>, suffix: Seq<u8>) -> Seq<u8> {
    remaining + suffix.subrange(0, suffix.len() - FOOTER_SIZE)
}

/// Joins the first part of `length` bytes of metadata with the rest of it, which
/// the footer follows.
pub fn assemble_metadata(length: usize, remaining: &[u8], suffix: &[u8]) -> (metadata: BytesMut)
    requires
        suffix@.len() >= FOOTER_SIZE,
        length <= isize::MAX,
        remaining@.len() + suffix@.len() - FOOTER_SIZE <= isize::MAX,
    ensures
        buffered(metadata) == assembled(remaining@, suffix@),
{
    let mut metadata: BytesMut = BytesMut::with_capacity(length);
    put(&mut metadata, remaining);
    put(&mut metadata, slice_subrange(suffix, 0, suffix.len() - FOOTER_SIZE));
    proof {
        assert(buffered(metadata) =~= assembled(remaining@, suffix@));
    }
    metadata
}

impl FetchState {
    /// Whether these bytes can be what this state waits for, and decoding the metadata is
    /// known to return where they complete it.
    pub open spec fn admits(self, bytes: Seq<u8>) -> bool {
        match self@ {
            FetchStateView::Suffix { size, footer_start } => {
                &&& size >= FOOTER_SIZE
                &&& is_suffix(size, footer_start, bytes)
                &&& located(size, footer_start, bytes) matches Ok(
                    MetadataLocation::Within { start, end },
                ) ==> is_decodable(bytes.subrange(start as int, end as int))
            },
            FetchStateView::Remaining { length, suffix } => {
                &&& suffix.len() >= FOOTER_SIZE
                &&& length <= isize::MAX
                &&& bytes.len() + suffix.len() - FOOTER_SIZE <= isize::MAX
                &&& is_decodable(assembled(bytes, suffix))
            },
        }
    }

    /// Tests whether these bytes can be what this state waits for, and decoding the metadata
    /// is known to return where they complete it.
    pub fn can_take(&self, bytes: &[u8]) -> (admitted: bool)
        ensures
            admitted == self.admits(bytes@),
    {
        match self {
            FetchState::Suffix { size, footer_start } => {
                if !can_be_suffix(*size, *footer_start, bytes) {
                    return false;
                }
                match locate_metadata(*size, *footer_start, bytes) {
                    Ok(MetadataLocation::Within { start, end }) => can_decode(
                        slice_subrange(bytes, start, end),
                    ),
                    _ => true,
                }
            },
            FetchState::Remaining { length, suffix } => {
                let limit: usize = isize::MAX as usize;
                let kept: usize = suffix.len();
                if kept < FOOTER_SIZE || *length > limit || kept - FOOTER_SIZE > limit
                    || bytes.len() > limit - (kept - FOOTER_SIZE) {
                    return false;
                }
                let metadata: BytesMut = assemble_metadata(*length, bytes, suffix.as_slice());
                can_decode(as_bytes(&metadata))
            },
        }
    }
}

/// Tests whether bytes can be the end of a file of `size` bytes from `footer_start` on.
fn can_be_suffix(size: usize, footer_start: usize, bytes: &[u8]) -> (possible: bool)
    ensures
        possible == (size >= FOOTER_SIZE && is_suffix(size as int, footer_start as int, bytes@)),
{
    let n: usize = bytes.len();
    if size < FOOTER_SIZE || n < FOOTER_SIZE {
        return false;
    }
    match read_footer(bytes) {
        Ok(length) => {
            if length > size - FOOTER_SIZE || length > n - FOOTER_SIZE {
                return true;
            }
            let start: usize = size - FOOTER_SIZE - length;
            footer_start <= start && start - footer_start <= n - FOOTER_SIZE
        },
        Err(_) => true,
    }
}

/// Whether a step is what decoding these bytes as metadata gives.
pub open spec fn is_decoded(step: Result<FetchStep, Error>, bytes: Seq<u8>) -> bool {
    match decoded_metadata(bytes) {
        Ok(metadata) => step == Ok::<FetchStep, Error>(FetchStep::Done(metadata)),
        Err(error) => step == Err::<FetchStep, Error>(Error::ParquetError(error)),
    }
}

/// Whether a step is the next one of a fetch that waited for these bytes: to read the rest
/// of the metadata, or the decoded metadata.
pub open spec fn is_next(
    step: Result<FetchStep, Error>,
    state: FetchStateView,
    bytes: Seq<u8>,
) -> bool {
    match state {
        FetchStateView::Suffix { size, footer_start } => match located(size, footer_start, bytes) {
            Ok(MetadataLocation::Within { start, end }) => is_decoded(
                step,
                bytes.subrange(start as int, end as int),
            ),
            Ok(MetadataLocation::Before { length, missing }) => {
                &&& step matches Ok(FetchStep::Read(range, next))
                &&& range == missing
                &&& next@ == (FetchStateView::Remaining { length: length as int, suffix: bytes })
            },
            Err(error) => step matches Err(e) && e@ == error,
        },
        FetchStateView::Remaining { length, suffix } => is_decoded(step, assembled(bytes, suffix)),
    }
}

/// Takes the bytes that a fetch waited for and says what is next.
pub fn fetch_parquet_metadata(state: FetchState, bytes: Vec<u8>) -> (step: Result<FetchStep, Error>)
    requires
        state.admits(bytes@),
    ensures
        is_next(step, state@, bytes@),
{
    match state {
        FetchState::Suffix { size, footer_start } => {
            match locate_metadata(size, footer_start, bytes.as_slice()) {
                Ok(MetadataLocation::Within { start, end }) => {
                    match parquet::file::footer::decode_metadata(
                        slice_subrange(bytes.as_slice(), start, end),
                    ) {
                        Ok(metadata) => Ok(FetchStep::Done(metadata)),
                        Err(error) => Err(Error::ParquetError(error)),
                    }
                },
                Ok(MetadataLocation::Before { length, missing }) => Ok(
                    FetchStep::Read(missing, FetchState::Remaining { length, suffix: bytes }),
                ),
                Err(error) => Err(error),
            }
        },
        FetchState::Remaining { length, suffix } => {
            let metadata: BytesMut = assemble_metadata(length, bytes.as_slice(), suffix.as_slice());
            match parquet::file::footer::decode_metadata(as_bytes(&metadata)) {
                Ok(metadata) => Ok(FetchStep::Done(metadata)),
                Err(error) => Err(Error::ParquetError(error)),
            }
        },
    }
}

/// Takes the bytes that a fetch waited for and says what is next, or gives `None` where
/// they cannot be what it waited for, or decoding them may panic.
pub fn checked_fetch_parquet_metadata(state: FetchState, bytes: Vec<u8>) -> (step: Option<
    Result<FetchStep, Error>,
>)
    ensures
        step is Some <==> state.admits(bytes@),
        step matches Some(next) ==> is_next(next, state@, bytes@),
{
    if state.can_take(bytes.as_slice()) {
        Some(fetch_parquet_metadata(state, bytes))
    } else {
        None
    }
}

/// The metadata of a file: the bytes before the footer, as many as it says.
pub open spec fn metadata_of(file: Seq<u8>) -> Result<Seq<u8>, ErrorView> {
    let size = file.len();
    if size < FOOTER_SIZE {
        Err(ErrorView::Execution(too_small_for_footer(size)))
    } else {
        match suffix_length(file) {
            None => Err(suffix_error(file)),
            Some(length) => if size < length + FOOTER_SIZE {
                Err(ErrorView::Execution(too_small_for_metadata(size, length)))
            } else {
                Ok(file.subrange(size - FOOTER_SIZE - length, size - FOOTER_SIZE))
            },
        }
    }
}

/// The end of a file that the first request of a fetch reads.
pub open spec fn first_read(file: Seq<u8>, size_hint: Option<usize>) -> Seq<u8> {
    file.subrange(first_read_start(file.len() as int, size_hint), file.len() as int)
}

/// The bytes that a fetch hands to the decoder when each request returns the
/// bytes of the file that it asked for, or the error that it ends with.
pub open spec fn fetched(file: Seq<u8>, size_hint: Option<usize>) -> Result<Seq<u8>, ErrorView> {
    let size = file.len() as int;
    let suffix = first_read(file, size_hint);
    if size < FOOTER_SIZE {
        Err(ErrorView::Execution(too_small_for_footer(file.len())))
    } else {
        match located(size, first_read_start(size, size_hint), suffix) {
            Err(error) => Err(error),
            Ok(MetadataLocation::Within { start, end }) => Ok(
                suffix.subrange(start as int, end as int),
            ),
            Ok(MetadataLocation::Before { length, missing }) => Ok(
                assembled(file.subrange(missing.start as int, missing.end as int), suffix),
            ),
        }
    }
}

/// How many requests such a fetch makes.
pub open spec fn requests(file: Seq<u8>, size_hint: Option<usize>) -> nat {
    let size = file.len() as int;
    if size < FOOTER_SIZE {
        0
    } else {
        match located(size, first_read_start(size, size_hint), first_read(file, size_hint)) {
            Ok(MetadataLocation::Before { .. }) => 2,
            _ => 1,
        }
    }
}

/// The hint does not change what is fetched: the decoder gets the metadata of the
/// file, and the error is the same, whatever part of the file was read first. A
/// hint that does not cover the footer is left out.
pub proof fn law_fetch_ignores_hint(file: Seq<u8>, size_hint: Option<usize>)
    requires
        file.len() <= usize::MAX,
        size_hint matches Some(hint) ==> hint >= FOOTER_SIZE,
    ensures
        fetched(file, size_hint) == metadata_of(file),
{
    if file.len() >= FOOTER_SIZE {
        let size = file.len() as int;
        let start = first_read_start(size, size_hint);
        let suffix = first_read(file, size_hint);
        assert(suffix.subrange(suffix.len() - FOOTER_SIZE, suffix.len() as int) =~= file.subrange(
            size - FOOTER_SIZE,
            size,
        ));
        if let Some(length) = suffix_length(file) {
            let from = size - FOOTER_SIZE - length;
            if from >= 0 {
                let metadata = file.subrange(from, size - FOOTER_SIZE);
                if length > suffix.len() - FOOTER_SIZE {
                    assert(assembled(file.subrange(from, start), suffix) =~= metadata);
                } else {
                    assert(suffix.subrange(from - start, suffix.len() - FOOTER_SIZE) =~= metadata);
                }
            }
        }
    }
}

/// A fetch makes a second request exactly when the file holds metadata that the
/// first one did not cover: without a hint, wherever there is metadata at all;
/// with one, where metadata and footer are longer than the hint.
pub proof fn law_fetch_requests(file: Seq<u8>, size_hint: Option<usize>)
    requires
        file.len() <= usize::MAX,
        size_hint matches Some(hint) ==> hint >= FOOTER_SIZE,
    ensures
        metadata_of(file) matches Ok(metadata) ==> requests(file, size_hint) == (if metadata.len()
            + FOOTER_SIZE > size_hint.unwrap_or(FOOTER_SIZE) {
            2nat
        } else {
            1nat
        }),
        requests(file, size_hint) == 0 <==> file.len() < FOOTER_SIZE,
        requests(file, size_hint) <= 2,
{
    if file.len() >= FOOTER_SIZE {
        let size = file.len() as int;
        let suffix = first_read(file, size_hint);
        assert(suffix.subrange(suffix.len() - FOOTER_SIZE, suffix.len() as int) =~= file.subrange(
            size - FOOTER_SIZE,
            size,
        ));
    }
}

/// What each request of a fetch returns is what the fetch waits for, when it is the part of
/// the file that was asked for and decoding the metadata of the file is known to return. A
/// buffer must be able to hold metadata that two requests read.
pub proof fn law_fetch_accepts_file(
    file: Seq<u8>,
    size_hint: Option<usize>,
    first: FetchState,
    second: FetchState,
)
    requires
        FOOTER_SIZE <= file.len() <= usize::MAX,
        size_hint matches Some(hint) ==> hint >= FOOTER_SIZE,
        metadata_of(file) matches Ok(metadata) ==> is_decodable(metadata),
        first@ == (FetchStateView::Suffix {
            size: file.len() as int,
            footer_start: first_read_start(file.len() as int, size_hint),
        }),
    ensures
        first.admits(first_read(file, size_hint)),
        located(
            file.len() as int,
            first_read_start(file.len() as int, size_hint),
            first_read(file, size_hint),
        ) matches Ok(MetadataLocation::Before { length, missing }) ==> {
            &&& missing.start <= missing.end <= file.len()
            &&& length == missing.end - missing.start + first_read(file, size_hint).len()
                - FOOTER_SIZE
            &&& length <= isize::MAX && second@ == (FetchStateView::Remaining {
                length: length as int,
                suffix: first_read(file, size_hint),
            }) ==> second.admits(file.subrange(missing.start as int, missing.end as int))
        },
{
    law_fetch_ignores_hint(file, size_hint);
    let size = file.len() as int;
    let suffix = first_read(file, size_hint);
    assert(suffix.subrange(suffix.len() - FOOTER_SIZE, suffix.len() as int) =~= file.subrange(
        size - FOOTER_SIZE,
        size,
    ));
}

/// A file that ends with its metadata, the length of that in four bytes from the lowest
/// one on, and `PAR1` gives that metadata, whatever comes before it and whatever the hint.
/// It takes one request where the hint covers the metadata and the footer, and two
/// otherwise.
pub proof fn law_metadata_is_found(
    before: Seq<u8>,
    metadata: Seq<u8>,
    size_hint: Option<usize>,
    file: Seq<u8>,
)
    requires
        metadata.len() <= u32::MAX,
        file == before + metadata + seq![
            (metadata.len() % 256) as u8,
            (metadata.len() / 256 % 256) as u8,
            (metadata.len() / 65536 % 256) as u8,
            (metadata.len() / 16777216) as u8,
            'P' as u8,
            'A' as u8,
            'R' as u8,
            '1' as u8,
        ],
        file.len() <= usize::MAX,
        size_hint matches Some(hint) ==> hint >= 8,
    ensures
        fetched(file, size_hint) == Ok::<_, ErrorView>(metadata),
        size_hint is None ==> requests(file, size_hint) == (if metadata.len() == 0 {
            1nat
        } else {
            2nat
        }),
        size_hint matches Some(hint) ==> requests(file, size_hint) == (if metadata.len() + 8
            <= hint {
            1nat
        } else {
            2nat
        }),
{
    let size = file.len() as int;
    let footer = file.subrange(size - 8, size);
    assert(footer.subrange(4, 8) =~= magic());
    let n = metadata.len();
    assert(n == n % 256 + 256 * (n / 256 % 256) + 65536 * (n / 65536 % 256) + 16777216 * (n
        / 16777216));
    assert(suffix_length(file) == Some(n));
    assert(file.subrange(size - 8 - n, size - 8) =~= metadata);
    law_fetch_ignores_hint(file, size_hint);
    law_fetch_requests(file, size_hint);
}

/// A file that does not end with `PAR1`, or is not as long as its metadata and footer
/// together, gives none.
pub proof fn law_other_files_have_no_metadata(file: Seq<u8>, size_hint: Option<usize>)
    requires
        file.len() <= usize::MAX,
        size_hint matches Some(hint) ==> hint >= 8,
    ensures
        file.len() < 8 ==> fetched(file, size_hint) is Err,
        file.len() >= 8 && file.subrange(file.len() - 4, file.len() as int) != seq![
            'P' as u8,
            'A' as u8,
            'R' as u8,
            '1' as u8,
        ] ==> fetched(file, size_hint) matches Err(ErrorView::ParquetError(_)),
        file.len() >= 8 && file.len() < 8 + file[file.len() - 8] + 256 * file[file.len() - 7]
            + 65536 * file[file.len() - 6] + 16777216 * file[file.len() - 5] ==> fetched(
            file,
            size_hint,
        ) is Err,
{
    law_fetch_ignores_hint(file, size_hint);
    if file.len() >= 8 {
        let footer = file.subrange(file.len() - 8, file.len() as int);
        assert(footer.subrange(4, 8) =~= file.subrange(file.len() - 4, file.len() as int));
    }
}

/// What is said of a file that is too small names its size, and what it lacks: the footer,
/// or that and the metadata with their length together.
pub proof fn law_messages_name_sizes(size: nat, length: nat)
    ensures
        exists|a: Seq<char>, b: Seq<char>|
            too_small_for_footer(size) == #[trigger] (a + decimal(size) + b),
        exists|a: Seq<char>, b: Seq<char>|
            too_small_for_metadata(size, length) == #[trigger] (a + decimal(size) + b + decimal(
                length + 8,
            )),
{
    assert(too_small_for_metadata(size, length) == "file size of "@ + decimal(size)
        + " is less than footer + metadata "@ + decimal(length + 8));
}

} // verus!
