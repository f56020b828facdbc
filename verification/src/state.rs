//! The incremental driver: a resumable state machine stepped by `advance`.
//!
//! Each step takes the current state and the byte window received so far
//! and returns how many window bytes were consumed together with the next
//! state. The driver alone accumulates consumed counts into the absolute
//! stream offset, tracks the stack of open list regions, and runs the
//! per-stream sub-protocol that captures a video stream's metadata.

use vstd::prelude::*;

use crate::parser;
use crate::parser::{
    block, header, le_u32_at, le32_at, offset_headroom, spec_block, spec_header, spec_strf, strf,
    AVIStreamHeader, BitmapInfoHeader, Block, Decoded, FccType, FCC_JUNK,
};

verus! {

/// Driver status. `Error` is terminal: the driver never leaves it and
/// must not be stepped again once it is reached.
#[derive(Debug, Clone, PartialEq)]
pub enum State {
    Initial,
    Error,
    Blocks(Context),
    VideoIndexStream(Context, VideoIndexState),
    AudioIndexStream(Context),
    SubtitleIndexStream(Context),
}

/// Sub-protocol for one video stream: its stream header is in hand, the
/// bitmap metadata and an alignment record are still owed.
#[derive(Debug, Clone, PartialEq)]
pub enum VideoIndexState {
    /// Awaiting the bitmap metadata chunk.
    Initial(AVIStreamHeader),
    /// Awaiting the alignment record.
    BMP(AVIStreamHeader, BitmapInfoHeader),
    /// Both records captured.
    End(AVIStreamHeader, BitmapInfoHeader),
    Error,
}

/// One open list region: where it ends, absolutely, and what it is.
#[derive(Debug, Clone, PartialEq)]
pub struct List {
    pub end_offset: usize,
    pub current: parser::List,
}

/// Parsing context threaded through every step after the container
/// header: the declared total file size, the absolute offset consumed so
/// far, the stack of open list regions (outermost first), and the video
/// record once captured.
#[derive(Debug, Clone, PartialEq)]
pub struct Context {
    pub file_size: usize,
    pub stream_offset: usize,
    pub level: Vec<List>,
    pub video: Option<VideoContext>,
}

/// The captured pair describing the file's video stream.
#[derive(Debug, Clone, PartialEq)]
pub struct VideoContext {
    pub stream: AVIStreamHeader,
    pub bitmap: BitmapInfoHeader,
}

/// Mathematical image of a `Context`.
pub struct ContextV {
    pub file_size: usize,
    pub stream_offset: usize,
    pub level: Seq<List>,
    pub video: Option<VideoContext>,
}

impl View for Context {
    type V = ContextV;

    open spec fn view(&self) -> ContextV {
        ContextV {
            file_size: self.file_size,
            stream_offset: self.stream_offset,
            level: self.level@,
            video: self.video,
        }
    }
}

/// Mathematical image of a `State`.
pub enum StateV {
    Initial,
    Error,
    Blocks(ContextV),
    VideoIndexStream(ContextV, VideoIndexState),
    AudioIndexStream(ContextV),
    SubtitleIndexStream(ContextV),
}

impl View for State {
    type V = StateV;

    open spec fn view(&self) -> StateV {
        match self {
            State::Initial => StateV::Initial,
            State::Error => StateV::Error,
            State::Blocks(c) => StateV::Blocks(c@),
            State::VideoIndexStream(c, v) => StateV::VideoIndexStream(c@, *v),
            State::AudioIndexStream(c) => StateV::AudioIndexStream(c@),
            State::SubtitleIndexStream(c) => StateV::SubtitleIndexStream(c@),
        }
    }
}

/// The list stack is properly nested: read outermost to innermost, end
/// offsets never grow.
pub open spec fn wf_level(level: Seq<List>) -> bool {
    forall|i: int, j: int|
        0 <= i <= j < level.len() ==> #[trigger] level[i].end_offset >= #[trigger] level[
            j
        ].end_offset
}

/// Context invariant: the stack is properly nested, the stream offset has
/// not passed the innermost open list's end, and the declared file size
/// came from a 32-bit field.
pub open spec fn wf_ctx(ctx: ContextV) -> bool {
    &&& wf_level(ctx.level)
    &&& ctx.level.len() > 0 ==> ctx.stream_offset <= ctx.level.last().end_offset
    &&& ctx.file_size <= u32::MAX
}

/// The stack after closing every innermost region that ends exactly at
/// `off`.
pub open spec fn popped_level(level: Seq<List>, off: usize) -> Seq<List>
    decreases level.len(),
{
    if level.len() == 0 {
        level
    } else if level.last().end_offset == off {
        popped_level(level.drop_last(), off)
    } else {
        level
    }
}

/// How many window bytes the innermost open region still admits.
pub open spec fn clip_len(level: Seq<List>, off: usize, window_len: int) -> int {
    if level.len() == 0 {
        window_len
    } else {
        let rem = level.last().end_offset - off;
        if rem < window_len {
            rem
        } else {
            window_len
        }
    }
}

/// The block decode a `Blocks` step performs: the stack is first trimmed
/// of regions that closed at the current offset, then the window is
/// clipped to the innermost remaining region's budget.
pub open spec fn blocks_decode(w: Seq<u8>, ctx: ContextV) -> Decoded<Block> {
    let lvl = popped_level(ctx.level, ctx.stream_offset);
    spec_block(
        w.take(clip_len(lvl, ctx.stream_offset, w.len() as int)),
        ctx.stream_offset as int,
        ctx.file_size as u32,
    )
}

/// What `parse_initial` returns on the window `w`.
pub open spec fn spec_parse_initial(w: Seq<u8>) -> (int, StateV) {
    match spec_header(w) {
        Decoded::Malformed => (0int, StateV::Error),
        Decoded::Insufficient => (0int, StateV::Initial),
        Decoded::Success(h, n) => (
            n as int,
            StateV::Blocks(
                ContextV {
                    file_size: h.file_size as usize,
                    stream_offset: n,
                    level: Seq::empty(),
                    video: None,
                },
            ),
        ),
    }
}

/// What `parse_blocks` returns on the window `w` in context `ctx`.
pub open spec fn spec_parse_blocks(w: Seq<u8>, ctx: ContextV) -> (int, StateV) {
    let lvl = popped_level(ctx.level, ctx.stream_offset);
    let c1 = ContextV {
        file_size: ctx.file_size,
        stream_offset: ctx.stream_offset,
        level: lvl,
        video: ctx.video,
    };
    match blocks_decode(w, ctx) {
        Decoded::Malformed => (0int, StateV::Error),
        Decoded::Insufficient => (0int, StateV::Blocks(c1)),
        Decoded::Success(blk, n) => {
            let c2 = ContextV {
                file_size: c1.file_size,
                stream_offset: (c1.stream_offset + n) as usize,
                level: c1.level,
                video: c1.video,
            };
            match blk {
                Block::Unimplemented => (0int, StateV::Error),
                Block::Default => (0int, StateV::Error),
                Block::Avih(_) => (n as int, StateV::Blocks(c2)),
                Block::Strh(h) => match h.fcc_type {
                    FccType::Video => if c2.video is None {
                        (n as int, StateV::VideoIndexStream(c2, VideoIndexState::Initial(h)))
                    } else {
                        (0int, StateV::Error)
                    },
                    FccType::Audio => (n as int, StateV::AudioIndexStream(c2)),
                    FccType::Subtitle => (n as int, StateV::SubtitleIndexStream(c2)),
                },
                Block::List(size, l) => {
                    let end = (c2.stream_offset + size) as usize;
                    let entry = List { end_offset: end, current: l };
                    if c2.level.len() == 0 {
                        (
                            n as int,
                            StateV::Blocks(
                                ContextV {
                                    file_size: c2.file_size,
                                    stream_offset: c2.stream_offset,
                                    level: seq![entry],
                                    video: c2.video,
                                },
                            ),
                        )
                    } else if c2.level.last().end_offset < end {
                        (n as int, StateV::Error)
                    } else {
                        (
                            n as int,
                            StateV::Blocks(
                                ContextV {
                                    file_size: c2.file_size,
                                    stream_offset: c2.stream_offset,
                                    level: c2.level.push(entry),
                                    video: c2.video,
                                },
                            ),
                        )
                    }
                },
            }
        },
    }
}

/// The stack after closing every innermost region that ends exactly four
/// bytes past `off`: alignment padding frequently coincides with a list
/// boundary.
pub open spec fn popped_junk(level: Seq<List>, off: usize) -> Seq<List>
    decreases level.len(),
{
    if level.len() == 0 {
        level
    } else if level.last().end_offset == off + 4 {
        popped_junk(level.drop_last(), off)
    } else {
        level
    }
}

/// What `parse_video_index_stream` does on the window `w`: consumed
/// bytes, context after the call, and next sub-protocol state.
pub open spec fn spec_video_step(w: Seq<u8>, ctx: ContextV, vis: VideoIndexState) -> (
    int,
    ContextV,
    VideoIndexState,
) {
    match vis {
        VideoIndexState::Initial(h) => match spec_strf(w) {
            Decoded::Malformed => (0int, ctx, VideoIndexState::Error),
            Decoded::Insufficient => (0int, ctx, VideoIndexState::Initial(h)),
            Decoded::Success(b, n) => (n as int, ctx, VideoIndexState::BMP(h, b)),
        },
        VideoIndexState::BMP(h, b) => {
            if w.len() < 4 {
                (0int, ctx, VideoIndexState::BMP(h, b))
            } else if le32_at(w, 0) != FCC_JUNK {
                (0int, ctx, VideoIndexState::Error)
            } else if w.len() < 8 {
                (0int, ctx, VideoIndexState::BMP(h, b))
            } else {
                let c2 = ContextV {
                    file_size: ctx.file_size,
                    stream_offset: ctx.stream_offset,
                    level: popped_junk(ctx.level, ctx.stream_offset),
                    video: ctx.video,
                };
                (8 + le32_at(w, 4), c2, VideoIndexState::End(h, b))
            }
        },
        _ => (0int, ctx, VideoIndexState::Error),
    }
}

/// States on which `advance` may be invoked, with the room the offset
/// arithmetic needs. `Error` is terminal and excluded; the video
/// sub-protocol is only ever stepped while awaiting a record.
pub open spec fn advance_ok(s: StateV, w: Seq<u8>) -> bool {
    match s {
        StateV::Initial => true,
        StateV::Error => false,
        StateV::Blocks(ctx) => wf_ctx(ctx) && offset_headroom(ctx.stream_offset + w.len()),
        StateV::VideoIndexStream(ctx, vis) => {
            &&& wf_ctx(ctx)
            &&& offset_headroom(ctx.stream_offset + w.len())
            &&& (vis is Initial || vis is BMP)
        },
        StateV::AudioIndexStream(_) => true,
        StateV::SubtitleIndexStream(_) => true,
    }
}

/// What `advance` returns: bytes consumed out of `w`, and the next state.
pub open spec fn spec_advance(s: StateV, w: Seq<u8>) -> (int, StateV) {
    match s {
        StateV::Initial => spec_parse_initial(w),
        StateV::Blocks(ctx) => spec_parse_blocks(w, ctx),
        StateV::VideoIndexStream(ctx, vis) => {
            let (n, c2, vis2) = spec_video_step(w, ctx, vis);
            match vis2 {
                VideoIndexState::Error => (0int, StateV::Error),
                VideoIndexState::End(h, b) => (
                    n,
                    StateV::Blocks(
                        ContextV {
                            file_size: c2.file_size,
                            stream_offset: (c2.stream_offset + n) as usize,
                            level: c2.level,
                            video: Some(VideoContext { stream: h, bitmap: b }),
                        },
                    ),
                ),
                _ => (
                    n,
                    StateV::VideoIndexStream(
                        ContextV {
                            file_size: c2.file_size,
                            stream_offset: (c2.stream_offset + n) as usize,
                            level: c2.level,
                            video: c2.video,
                        },
                        vis2,
                    ),
                ),
            }
        },
        _ => (0int, StateV::Error),
    }
}

/// Steps the driver on the window of every byte received so far.
/// The consumed count is relative to the start of `input`; this function
/// is pure, so re-invoking it on the same pair returns the same result.
pub fn advance(state: State, input: &[u8]) -> (r: (usize, State))
    requires
        advance_ok(state@, input@),
    ensures
        r.0 == spec_advance(state@, input@).0,
        r.1@ == spec_advance(state@, input@).1,
{
    match state {
        State::Initial => parse_initial(input),
        State::Blocks(context) => parse_blocks(input, context),
        State::VideoIndexStream(mut context, index_state) => {
            let (advancing, vs) = parse_video_index_stream(input, &mut context, index_state);
            match vs {
                VideoIndexState::Error => (0, State::Error),
                VideoIndexState::End(stream, bitmap) => {
                    context.stream_offset = context.stream_offset + advancing;
                    context.video = Some(VideoContext { stream, bitmap });
                    (advancing, State::Blocks(context))
                },
                video_state => {
                    context.stream_offset = context.stream_offset + advancing;
                    (advancing, State::VideoIndexStream(context, video_state))
                },
            }
        },
        State::AudioIndexStream(context) => parse_audio_index_stream(input, context),
        State::SubtitleIndexStream(context) => parse_subtitle_index_stream(input, context),
        State::Error => vstd::pervasive::unreached(),
    }
}

/// Decodes the container header and opens a fresh context, or reports
/// that the window is malformed or still too short.
pub fn parse_initial(input: &[u8]) -> (r: (usize, State))
    ensures
        r.0 == spec_parse_initial(input@).0,
        r.1@ == spec_parse_initial(input@).1,
{
    match header(input) {
        Decoded::Malformed => (0, State::Error),
        Decoded::Insufficient => (0, State::Initial),
        Decoded::Success(h, n) => (
            n,
            State::Blocks(
                Context {
                    file_size: h.file_size as usize,
                    stream_offset: n,
                    level: Vec::new(),
                    video: None,
                },
            ),
        ),
    }
}

/// Closes every list region that ends exactly at the current offset,
/// then clips the window to the innermost remaining region's byte
/// budget.
#[verifier::loop_isolation(false)]
pub fn unpack_list<'a>(input: &'a [u8], ctx: Context) -> (r: (&'a [u8], Context))
    requires
        wf_level(ctx@.level),
        ctx@.level.len() > 0 ==> ctx@.stream_offset <= ctx@.level.last().end_offset,
    ensures
        r.1.file_size == ctx.file_size,
        r.1.stream_offset == ctx.stream_offset,
        r.1.video == ctx.video,
        r.1.level@ == popped_level(ctx@.level, ctx.stream_offset),
        r.0@ == input@.take(
            clip_len(popped_level(ctx@.level, ctx.stream_offset), ctx.stream_offset, input@.len() as int),
        ),
        wf_level(r.1.level@),
        r.1.level@.len() > 0 ==> ctx.stream_offset <= r.1.level@.last().end_offset,
{
    let ghost c0: ContextV = ctx@;
    let mut ctx = ctx;
    // close the regions that end exactly here: the offset never passes an
    // open region's end
    while !ctx.level.is_empty() && ctx.level[ctx.level.len() - 1].end_offset == ctx.stream_offset
        invariant
            ctx.file_size == c0.file_size,
            ctx.stream_offset == c0.stream_offset,
            ctx.video == c0.video,
            wf_level(ctx.level@),
            ctx.level@.len() > 0 ==> ctx.stream_offset <= ctx.level@.last().end_offset,
            popped_level(ctx.level@, c0.stream_offset) == popped_level(c0.level, c0.stream_offset),
        decreases ctx.level@.len(),
    {
        let ghost before: Seq<List> = ctx.level@;
        let _ = ctx.level.pop();
        proof {
            assert(ctx.level@ =~= before.drop_last());
            assert(forall|i: int, j: int|
                0 <= i <= j < ctx.level@.len() ==> #[trigger] ctx.level@[i].end_offset
                    >= #[trigger] ctx.level@[j].end_offset);
            if ctx.level@.len() > 0 {
                assert(ctx.level@.last() == before[before.len() - 2]);
                assert(before[before.len() - 2].end_offset >= before.last().end_offset);
            }
        }
    }
    proof {
        assert(popped_level(ctx.level@, c0.stream_offset) == ctx.level@);
    }
    if ctx.level.is_empty() {
        proof {
            assert(input@.take(input@.len() as int) =~= input@);
        }
        return (input, ctx);
    }
    let end_offset = ctx.level[ctx.level.len() - 1].end_offset;
    let rem = end_offset - ctx.stream_offset;
    let clip = if rem < input.len() {
        rem
    } else {
        input.len()
    };
    let sl = vstd::slice::slice_subrange(input, 0, clip);
    proof {
        assert(sl@ =~= input@.take(clip as int));
    }
    (sl, ctx)
}

/// One `Blocks` step: trim and clip via `unpack_list`, decode one block,
/// and take the transition it dictates.
pub fn parse_blocks(input: &[u8], ctx: Context) -> (r: (usize, State))
    requires
        wf_ctx(ctx@),
        offset_headroom(ctx@.stream_offset + input@.len()),
    ensures
        r.0 == spec_parse_blocks(input@, ctx@).0,
        r.1@ == spec_parse_blocks(input@, ctx@).1,
{
    let (sl, mut ctx) = unpack_list(input, ctx);
    let res = block(sl, ctx.stream_offset, ctx.file_size as u32);
    proof {
        parser::lemma_block_consumed_bounded(sl@, ctx@.stream_offset as int, ctx@.file_size as u32);
    }
    match res {
        Decoded::Malformed => (0, State::Error),
        Decoded::Insufficient => (0, State::Blocks(ctx)),
        Decoded::Success(blk, n) => {
            ctx.stream_offset = ctx.stream_offset + n;
            match blk {
                // the vocabulary this driver does not yet decode is
                // surfaced as a driver error rather than a process abort
                Block::Unimplemented => (0, State::Error),
                Block::Default => (0, State::Error),
                Block::Avih(_) => (n, State::Blocks(ctx)),
                Block::Strh(h) => {
                    match h.fcc_type {
                        FccType::Video => {
                            if ctx.video.is_none() {
                                (n, State::VideoIndexStream(ctx, VideoIndexState::Initial(h)))
                            } else {
                                (0, State::Error)
                            }
                        },
                        FccType::Audio => (n, State::AudioIndexStream(ctx)),
                        FccType::Subtitle => (n, State::SubtitleIndexStream(ctx)),
                    }
                },
                Block::List(size, l) => {
                    let end = ctx.stream_offset + size;
                    let entry = List { end_offset: end, current: l };
                    if ctx.level.is_empty() {
                        let mut level: Vec<List> = Vec::new();
                        level.push(entry);
                        proof {
                            assert(level@ =~= seq![List { end_offset: end, current: l }]);
                        }
                        (
                            n,
                            State::Blocks(
                                Context {
                                    file_size: ctx.file_size,
                                    stream_offset: ctx.stream_offset,
                                    level,
                                    video: ctx.video,
                                },
                            ),
                        )
                    } else if ctx.level[ctx.level.len() - 1].end_offset < end {
                        (n, State::Error)
                    } else {
                        ctx.level.push(entry);
                        (n, State::Blocks(ctx))
                    }
                },
            }
        },
    }
}

/// One step of the video sub-protocol: decode the bitmap metadata, or
/// match the alignment record, close the regions it ends, and report how
/// far to skip.
#[verifier::loop_isolation(false)]
pub fn parse_video_index_stream(input: &[u8], ctx: &mut Context, state: VideoIndexState) -> (r: (
    usize,
    VideoIndexState,
))
    requires
        state is Initial || state is BMP,
        wf_ctx(old(ctx)@),
        offset_headroom(old(ctx)@.stream_offset + input@.len()),
    ensures
        r.0 == spec_video_step(input@, old(ctx)@, state).0,
        final(ctx)@ == spec_video_step(input@, old(ctx)@, state).1,
        r.1 == spec_video_step(input@, old(ctx)@, state).2,
{
    match state {
        VideoIndexState::Initial(h) => {
            match strf(input) {
                Decoded::Malformed => (0, VideoIndexState::Error),
                Decoded::Insufficient => (0, VideoIndexState::Initial(h)),
                Decoded::Success(b, n) => (n, VideoIndexState::BMP(h, b)),
            }
        },
        VideoIndexState::BMP(h, b) => {
            if input.len() < 4 {
                return (0, VideoIndexState::BMP(h, b));
            }
            let t = le_u32_at(input, 0);
            if t != FCC_JUNK {
                return (0, VideoIndexState::Error);
            }
            if input.len() < 8 {
                return (0, VideoIndexState::BMP(h, b));
            }
            let sz = le_u32_at(input, 4);
            let ghost orig: Seq<List> = ctx.level@;
            while !ctx.level.is_empty() && ctx.stream_offset + 4 == ctx.level[ctx.level.len()
                - 1].end_offset
                invariant
                    ctx.stream_offset == old(ctx).stream_offset,
                    ctx.file_size == old(ctx).file_size,
                    ctx.video == old(ctx).video,
                    popped_junk(ctx.level@, ctx.stream_offset) == popped_junk(
                        orig,
                        ctx.stream_offset,
                    ),
                decreases ctx.level@.len(),
            {
                let ghost before: Seq<List> = ctx.level@;
                let _ = ctx.level.pop();
                proof {
                    assert(ctx.level@ =~= before.drop_last());
                }
            }
            proof {
                assert(popped_junk(ctx.level@, ctx.stream_offset) == ctx.level@);
            }
            (8 + (sz as usize), VideoIndexState::End(h, b))
        },
        _ => vstd::pervasive::unreached(),
    }
}

/// Audio index parsing is a documented placeholder: stepping it reports
/// a driver error rather than aborting the process.
pub fn parse_audio_index_stream(_input: &[u8], _ctx: Context) -> (r: (usize, State))
    ensures
        r.0 == 0,
        r.1@ is Error,
{
    (0, State::Error)
}

/// Subtitle index parsing is a documented placeholder: stepping it
/// reports a driver error rather than aborting the process.
pub fn parse_subtitle_index_stream(_input: &[u8], _ctx: Context) -> (r: (usize, State))
    ensures
        r.0 == 0,
        r.1@ is Error,
{
    (0, State::Error)
}

/// Trimming the closed regions twice is the same as trimming them once.
pub proof fn lemma_popped_idempotent(level: Seq<List>, off: usize)
    ensures
        popped_level(popped_level(level, off), off) == popped_level(level, off),
    decreases level.len(),
{
    if level.len() > 0 && level.last().end_offset == off {
        lemma_popped_idempotent(level.drop_last(), off);
    }
}

/// Trimming the closed regions keeps the stack a properly nested prefix
/// whose innermost entry, if any, ends strictly past the offset.
pub proof fn lemma_popped_properties(level: Seq<List>, off: usize)
    requires
        wf_level(level),
        level.len() > 0 ==> off <= level.last().end_offset,
    ensures
        ({
            let p = popped_level(level, off);
            &&& wf_level(p)
            &&& p.len() <= level.len()
            &&& (p.len() > 0 ==> off < p.last().end_offset)
        }),
    decreases level.len(),
{
    if level.len() > 0 && level.last().end_offset == off {
        let d = level.drop_last();
        assert forall|i: int, j: int| 0 <= i <= j < d.len() implies #[trigger] d[i].end_offset
            >= #[trigger] d[j].end_offset by {
            assert(d[i] == level[i]);
            assert(d[j] == level[j]);
        }
        if d.len() > 0 {
            assert(d.last() == level[level.len() - 2]);
            assert(level[level.len() - 2].end_offset >= level.last().end_offset);
        }
        lemma_popped_properties(d, off);
    }
}

/// Closing regions at an alignment record keeps the stack properly
/// nested.
pub proof fn lemma_popped_junk_wf(level: Seq<List>, off: usize)
    requires
        wf_level(level),
    ensures
        wf_level(popped_junk(level, off)),
    decreases level.len(),
{
    if level.len() > 0 && level.last().end_offset == off + 4 {
        let d = level.drop_last();
        assert forall|i: int, j: int| 0 <= i <= j < d.len() implies #[trigger] d[i].end_offset
            >= #[trigger] d[j].end_offset by {
            assert(d[i] == level[i]);
            assert(d[j] == level[j]);
        }
        lemma_popped_junk_wf(d, off);
    }
}

/// Purity of the driver: a step that consumed nothing and did not fail
/// changed at most the trimmed stack, and stepping again on the same
/// window returns the identical pair — no hidden progress.
pub proof fn lemma_advance_insufficient_stable(s: StateV, w: Seq<u8>)
    requires
        advance_ok(s, w),
        spec_advance(s, w).0 == 0,
        !(spec_advance(s, w).1 is Error),
    ensures
        spec_advance(spec_advance(s, w).1, w) == (0int, spec_advance(s, w).1),
{
    match s {
        StateV::Blocks(ctx) => {
            let lvl = popped_level(ctx.level, ctx.stream_offset);
            lemma_popped_idempotent(ctx.level, ctx.stream_offset);
            parser::lemma_block_consumed_bounded(
                w.take(clip_len(lvl, ctx.stream_offset, w.len() as int)),
                ctx.stream_offset as int,
                ctx.file_size as u32,
            );
        },
        _ => {},
    }
}

/// List-nesting invariant: every state a step can reach keeps the stack's
/// end offsets non-growing read outermost to innermost; a step taken in
/// `Blocks` keeps the whole context invariant; and a decoded child list
/// that would outgrow the innermost open region forces `Error` instead of
/// entering the stack.
pub proof fn lemma_list_nesting(s: StateV, w: Seq<u8>)
    requires
        advance_ok(s, w),
    ensures
        (spec_advance(s, w).1 matches StateV::Blocks(c) ==> wf_level(c.level)),
        (spec_advance(s, w).1 matches StateV::VideoIndexStream(c, _) ==> wf_level(c.level)),
        (spec_advance(s, w).1 matches StateV::AudioIndexStream(c) ==> wf_level(c.level)),
        (spec_advance(s, w).1 matches StateV::SubtitleIndexStream(c) ==> wf_level(c.level)),
        (s matches StateV::Blocks(ctx) ==> {
            &&& (spec_advance(s, w).1 matches StateV::Blocks(c) ==> wf_ctx(c))
            &&& (spec_advance(s, w).1 matches StateV::VideoIndexStream(c, _) ==> wf_ctx(c))
            &&& (spec_advance(s, w).1 matches StateV::AudioIndexStream(c) ==> wf_ctx(c))
            &&& (spec_advance(s, w).1 matches StateV::SubtitleIndexStream(c) ==> wf_ctx(c))
        }),
        (s matches StateV::Blocks(ctx) ==> {
            let lvl = popped_level(ctx.level, ctx.stream_offset);
            blocks_decode(w, ctx) matches Decoded::Success(blk, n) ==> blk matches Block::List(
                size,
                _,
            ) ==> lvl.len() > 0 && lvl.last().end_offset < ctx.stream_offset + n + size
                ==> spec_advance(s, w).1 is Error
        }),
{
    match s {
        StateV::Blocks(ctx) => {
            let lvl = popped_level(ctx.level, ctx.stream_offset);
            let clip = clip_len(lvl, ctx.stream_offset, w.len() as int);
            lemma_popped_properties(ctx.level, ctx.stream_offset);
            parser::lemma_block_consumed_bounded(
                w.take(clip),
                ctx.stream_offset as int,
                ctx.file_size as u32,
            );
            if let Decoded::Success(blk, n) = blocks_decode(w, ctx) {
                assert(w.take(clip).len() <= clip);
                let so2 = (ctx.stream_offset + n) as usize;
                if let Block::List(size, l) = blk {
                    let end = (so2 + size) as usize;
                    let entry = List { end_offset: end, current: l };
                    if lvl.len() == 0 {
                        assert(wf_level(seq![entry]));
                    } else if end <= lvl.last().end_offset {
                        let p2 = lvl.push(entry);
                        assert forall|i: int, j: int| 0 <= i <= j < p2.len() implies #[trigger] p2[
                            i
                        ].end_offset >= #[trigger] p2[j].end_offset by {
                            if j < p2.len() - 1 {
                                assert(p2[i] == lvl[i]);
                                assert(p2[j] == lvl[j]);
                            } else if i < p2.len() - 1 {
                                assert(p2[i] == lvl[i]);
                                assert(lvl[i].end_offset >= lvl[lvl.len() - 1].end_offset);
                            }
                        }
                    }
                }
            }
        },
        StateV::VideoIndexStream(ctx, _) => {
            lemma_popped_junk_wf(ctx.level, ctx.stream_offset);
        },
        _ => {},
    }
}

/// The context a state carries, if any.
pub open spec fn state_ctx(s: StateV) -> Option<ContextV> {
    match s {
        StateV::Initial => None,
        StateV::Error => None,
        StateV::Blocks(c) => Some(c),
        StateV::VideoIndexStream(c, _) => Some(c),
        StateV::AudioIndexStream(c) => Some(c),
        StateV::SubtitleIndexStream(c) => Some(c),
    }
}

/// Absolute-offset law: the consumed count of a step is never negative,
/// and the driver alone accumulates it into the context's stream offset,
/// which therefore never decreases across a parse. A context opened from
/// `Initial` starts at exactly the consumed header length.
pub proof fn lemma_offset_accumulates(s: StateV, w: Seq<u8>)
    requires
        advance_ok(s, w),
    ensures
        spec_advance(s, w).0 >= 0,
        (match (state_ctx(s), state_ctx(spec_advance(s, w).1)) {
            (Some(c), Some(c2)) => c2.stream_offset == c.stream_offset + spec_advance(s, w).0,
            _ => true,
        }),
        (s is Initial ==> (match state_ctx(spec_advance(s, w).1) {
            Some(c2) => c2.stream_offset == spec_advance(s, w).0,
            None => true,
        })),
{
    match s {
        StateV::Blocks(ctx) => {
            let lvl = popped_level(ctx.level, ctx.stream_offset);
            parser::lemma_block_consumed_bounded(
                w.take(clip_len(lvl, ctx.stream_offset, w.len() as int)),
                ctx.stream_offset as int,
                ctx.file_size as u32,
            );
        },
        _ => {},
    }
}

/// Video-stream singleton: a video-classified stream header decoded while
/// a video record already exists forces `Error` — never a silent
/// overwrite.
pub proof fn lemma_video_singleton(ctx: ContextV, w: Seq<u8>)
    requires
        advance_ok(StateV::Blocks(ctx), w),
        ctx.video is Some,
        (blocks_decode(w, ctx) matches Decoded::Success(blk, _) && blk matches Block::Strh(h)
            && h.fcc_type is Video),
    ensures
        spec_advance(StateV::Blocks(ctx), w) == (0int, StateV::Error),
{
}

/// While a video stream's records are still in flight, a window that
/// opens with another stream header cannot be mistaken for the owed
/// bitmap metadata: the step fails rather than starting a second stream.
pub proof fn lemma_video_singleton_in_flight(
    ctx: ContextV,
    h0: AVIStreamHeader,
    w: Seq<u8>,
)
    requires
        advance_ok(StateV::VideoIndexStream(ctx, VideoIndexState::Initial(h0)), w),
        w.len() >= 4,
        le32_at(w, 0) == parser::FCC_STRH,
    ensures
        spec_advance(StateV::VideoIndexStream(ctx, VideoIndexState::Initial(h0)), w) == (
            0int,
            StateV::Error,
        ),
{
}

} // verus!

