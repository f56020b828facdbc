use avi::parser::{self, FccType};
use avi::state::{
    advance, parse_blocks, parse_initial, parse_video_index_stream, unpack_list, Context, List,
    State, VideoIndexState,
};

fn le(x: u32) -> [u8; 4] {
    x.to_le_bytes()
}

fn buf(parts: &[&[u8]]) -> Vec<u8> {
    let mut v = Vec::new();
    for p in parts {
        v.extend_from_slice(p);
    }
    v
}

/// A complete well-formed fragment: container header, header list with
/// the main header, a stream list with a video stream header, its bitmap
/// metadata, and the closing alignment record.
fn sample_file() -> Vec<u8> {
    buf(&[
        // container header
        b"RIFF",
        &le(675628),
        b"AVI ",
        // LIST hdrl, ending at offset 24 + 192 = 216
        b"LIST",
        &le(192),
        b"hdrl",
        // avih block: 8 header bytes + 56 payload bytes
        b"avih",
        &le(56),
        &le(1000),
        &le(500000),
        &le(2),
        &le(0x10),
        &le(250),
        &le(0),
        &le(1),
        &le(4096),
        &le(320),
        &le(240),
        &[0u8; 16],
        // LIST strl, ending at offset 100 + 116 = 216
        b"LIST",
        &le(116),
        b"strl",
        // strh block: video stream
        b"strh",
        &le(56),
        b"vids",
        b"DIB ",
        &le(0),
        &1u16.to_le_bytes(),
        &0u16.to_le_bytes(),
        &le(0),
        &le(1),
        &le(25),
        &le(0),
        &le(100),
        &le(4096),
        &le(9500),
        &le(0),
        &0i16.to_le_bytes(),
        &0i16.to_le_bytes(),
        &320i16.to_le_bytes(),
        &240i16.to_le_bytes(),
        // strf chunk: tag, self size 40, bitmap metadata
        b"strf",
        &le(40),
        &le(40),
        &320i32.to_le_bytes(),
        &(-240i32).to_le_bytes(),
        &1u16.to_le_bytes(),
        &24u16.to_le_bytes(),
        &le(0),
        &le(230400),
        &2835i32.to_le_bytes(),
        &2835i32.to_le_bytes(),
        &le(0),
        &le(0),
        // alignment record: both open lists end at 212 + 4 = 216
        b"JUNK",
        &le(4),
        &[0u8; 4],
    ])
}

#[test]
fn state_initial() {
    let data = sample_file();
    let mut opt_state = Some(State::Initial);
    let mut offset = 0usize;

    loop {
        if offset >= data.len() {
            println!("file ended");
            break;
        }

        let state = opt_state.take().expect("should not be none here");
        let (mv, state) = advance(state, &data[offset..]);
        println!("state is: {:?} (advancing {})", state, mv);
        offset += mv;
        if mv == 0 {
            opt_state = Some(state);
            break;
        }
        opt_state = Some(state);
    }

    assert_eq!(offset, data.len());
    match opt_state.expect("should not be none here") {
        State::Blocks(ctx) => {
            assert_eq!(ctx.stream_offset, 224);
            assert_eq!(ctx.file_size, 675628);
            assert!(ctx.level.is_empty());
            let video = ctx.video.expect("video record must be captured");
            assert_eq!(video.stream.fcc_type, FccType::Video);
            assert_eq!(video.bitmap.height, -240);
        }
        s => panic!("unexpected final state: {:?}", s),
    }
}

#[test]
fn end_to_end_one_buffer() {
    // the whole fragment fed as a single window
    let data = sample_file();
    let mut state = State::Initial;
    let mut offset = 0usize;
    while offset < data.len() {
        let (mv, next) = advance(state, &data[offset..]);
        assert!(mv > 0, "no progress at offset {}", offset);
        offset += mv;
        state = next;
    }
    match state {
        State::Blocks(ctx) => {
            assert!(ctx.video.is_some());
            assert!(ctx.level.is_empty());
            assert_eq!(ctx.stream_offset, 224);
        }
        s => panic!("unexpected final state: {:?}", s),
    }
}

#[test]
fn end_to_end_byte_by_byte() {
    // the same fragment arriving one byte at a time: every Insufficient
    // step consumes nothing, and the final state is identical
    let data = sample_file();
    let mut state = State::Initial;
    let mut offset = 0usize;
    let mut have = 0usize;
    while offset < data.len() {
        if have < offset {
            have = offset;
        }
        let (mv, next) = advance(state, &data[offset..have]);
        if mv == 0 {
            if matches!(next, State::Error) {
                panic!("driver failed at offset {}", offset);
            }
            if have == data.len() {
                panic!("no progress on the full window");
            }
            have += 1;
            state = next;
            continue;
        }
        offset += mv;
        state = next;
    }
    match state {
        State::Blocks(ctx) => {
            assert!(ctx.video.is_some());
            assert!(ctx.level.is_empty());
            assert_eq!(ctx.stream_offset, 224);
        }
        s => panic!("unexpected final state: {:?}", s),
    }
}

#[test]
fn advance_insufficient_repeat() {
    // a too-short window consumes nothing and leaves the state unchanged;
    // asking again with the same pair returns the identical answer
    let (mv1, s1) = advance(State::Initial, b"RI");
    assert_eq!(mv1, 0);
    assert_eq!(s1, State::Initial);
    let (mv2, s2) = advance(s1.clone(), b"RI");
    assert_eq!(mv2, 0);
    assert_eq!(s2, s1);

    let data = sample_file();
    let (mv, s) = advance(State::Initial, &data[..12]);
    assert_eq!(mv, 12);
    // only 5 bytes of the next block have arrived
    let (mv1, s1) = advance(s, &data[12..17]);
    assert_eq!(mv1, 0);
    let (mv2, s2) = advance(s1.clone(), &data[12..17]);
    assert_eq!(mv2, 0);
    assert_eq!(s2, s1);
}

#[test]
fn header_malformed_ends_in_error() {
    let data = buf(&[b"MKVX", &le(7), b"AVI "]);
    let (mv, s) = advance(State::Initial, &data);
    assert_eq!(mv, 0);
    assert_eq!(s, State::Error);
}

#[test]
fn list_nesting_violation_ends_in_error() {
    // a child list declaring an end past its parent's end is refused
    let data = buf(&[
        b"RIFF",
        &le(1000),
        b"AVI ",
        // parent ends at 24 + 100 = 124
        b"LIST",
        &le(100),
        b"hdrl",
        // child would end at 36 + 200 = 236 > 124
        b"LIST",
        &le(200),
        b"strl",
    ]);
    let (mv, s) = advance(State::Initial, &data);
    assert_eq!(mv, 12);
    let (mv, s) = advance(s, &data[12..]);
    assert_eq!(mv, 12);
    let (_, s) = advance(s, &data[24..]);
    assert_eq!(s, State::Error);
}

#[test]
fn list_nesting_in_bounds_is_kept() {
    // a child list that fits is pushed innermost
    let data = buf(&[
        b"RIFF",
        &le(1000),
        b"AVI ",
        b"LIST",
        &le(100),
        b"hdrl",
        b"LIST",
        &le(60),
        b"strl",
    ]);
    let (_, s) = advance(State::Initial, &data);
    let (_, s) = advance(s, &data[12..]);
    let (mv, s) = advance(s, &data[24..]);
    assert_eq!(mv, 12);
    match s {
        State::Blocks(ctx) => {
            assert_eq!(ctx.level.len(), 2);
            assert_eq!(ctx.level[0].end_offset, 124);
            assert_eq!(ctx.level[1].end_offset, 96);
        }
        s => panic!("unexpected state: {:?}", s),
    }
}

fn video_stream_bytes() -> Vec<u8> {
    buf(&[
        b"strh",
        &le(56),
        b"vids",
        b"DIB ",
        &[0u8; 48],
    ])
}

#[test]
fn second_video_stream_ends_in_error() {
    // capture one video stream completely, then present a second one
    let strf_bytes = buf(&[b"strf", &le(40), &le(40), &[0u8; 36]]);
    let junk = buf(&[b"JUNK", &le(0)]);
    let data = buf(&[
        b"RIFF",
        &le(1000),
        b"AVI ",
        &video_stream_bytes(),
        &strf_bytes,
        &junk,
        &video_stream_bytes(),
    ]);
    let (mv, s) = advance(State::Initial, &data);
    assert_eq!(mv, 12);
    let (mv, s) = advance(s, &data[12..]);
    assert_eq!(mv, 64);
    assert!(matches!(s, State::VideoIndexStream(_, VideoIndexState::Initial(_))));
    let (mv, s) = advance(s, &data[76..]);
    assert_eq!(mv, 48);
    assert!(matches!(s, State::VideoIndexStream(_, VideoIndexState::BMP(_, _))));
    let (mv, s) = advance(s, &data[124..]);
    assert_eq!(mv, 8);
    match &s {
        State::Blocks(ctx) => assert!(ctx.video.is_some()),
        s => panic!("unexpected state: {:?}", s),
    }
    // the second video-classified stream header forces Error
    let (mv, s) = advance(s, &data[132..]);
    assert_eq!(mv, 0);
    assert_eq!(s, State::Error);
}

#[test]
fn audio_stream_is_an_unimplemented_placeholder() {
    let data = buf(&[
        b"RIFF",
        &le(1000),
        b"AVI ",
        b"strh",
        &le(56),
        b"auds",
        &[0u8; 52],
    ]);
    let (_, s) = advance(State::Initial, &data);
    let (mv, s) = advance(s, &data[12..]);
    assert_eq!(mv, 64);
    assert!(matches!(s, State::AudioIndexStream(_)));
    let (mv, s) = advance(s, &data[76..]);
    assert_eq!(mv, 0);
    assert_eq!(s, State::Error);
}

#[test]
fn subtitle_stream_is_an_unimplemented_placeholder() {
    let data = buf(&[
        b"RIFF",
        &le(1000),
        b"AVI ",
        b"strh",
        &le(56),
        b"txts",
        &[0u8; 52],
    ]);
    let (_, s) = advance(State::Initial, &data);
    let (_, s) = advance(s, &data[12..]);
    assert!(matches!(s, State::SubtitleIndexStream(_)));
    let (mv, s) = advance(s, &data[76..]);
    assert_eq!(mv, 0);
    assert_eq!(s, State::Error);
}

#[test]
fn unimplemented_block_ends_in_error() {
    let data = buf(&[b"RIFF", &le(1000), b"AVI ", b"indx", &le(16)]);
    let (_, s) = advance(State::Initial, &data);
    let (mv, s) = advance(s, &data[12..]);
    assert_eq!(mv, 0);
    assert_eq!(s, State::Error);
}

#[test]
fn unknown_block_ends_in_error() {
    let data = buf(&[b"RIFF", &le(1000), b"AVI ", b"00db", &le(16)]);
    let (_, s) = advance(State::Initial, &data);
    let (mv, s) = advance(s, &data[12..]);
    assert_eq!(mv, 0);
    assert_eq!(s, State::Error);
}

#[test]
fn parse_initial_opens_a_fresh_context() {
    let data = buf(&[b"RIFF", &le(675628), b"AVI "]);
    let (mv, s) = parse_initial(&data);
    assert_eq!(mv, 12);
    assert_eq!(
        s,
        State::Blocks(Context {
            file_size: 675628,
            stream_offset: 12,
            level: vec![],
            video: None,
        })
    );
    assert_eq!(parse_initial(&data[..9]), (0, State::Initial));
}

#[test]
fn parse_blocks_records_a_movi_region() {
    // a LIST typed movi: the stack entry ends where the declared size
    // says; the carried Movi value follows the even-padding law
    let data = buf(&[b"LIST", &le(100), b"movi"]);
    let ctx = Context { file_size: 5000, stream_offset: 12, level: vec![], video: None };
    let (mv, s) = parse_blocks(&data, ctx);
    assert_eq!(mv, 12);
    match s {
        State::Blocks(ctx) => {
            assert_eq!(ctx.stream_offset, 24);
            assert_eq!(ctx.level.len(), 1);
            assert_eq!(
                ctx.level[0],
                List { end_offset: 124, current: parser::List::Movi(120) }
            );
        }
        s => panic!("unexpected state: {:?}", s),
    }
}

#[test]
fn parse_blocks_starved_region_makes_no_progress() {
    // an open region with fewer than 8 budget bytes can never fit a
    // block header: the step consumes nothing and waits
    let window = [0u8; 64];
    let ctx = Context {
        file_size: 5000,
        stream_offset: 40,
        level: vec![List { end_offset: 45, current: parser::List::Hdrl }],
        video: None,
    };
    let (mv, s) = parse_blocks(&window, ctx);
    assert_eq!(mv, 0);
    assert!(matches!(s, State::Blocks(_)));
}

#[test]
fn parse_video_index_stream_steps_the_sub_protocol() {
    let strf_bytes = buf(&[b"strf", &le(40), &le(40), &[0u8; 36]]);
    let header = match avi::parser::strh(&video_stream_bytes()[8..]) {
        parser::Decoded::Success(h, 56) => h,
        r => panic!("unexpected decode: {:?}", r),
    };
    let mut ctx = Context { file_size: 5000, stream_offset: 76, level: vec![], video: None };
    let (mv, vis) =
        parse_video_index_stream(&strf_bytes, &mut ctx, VideoIndexState::Initial(header));
    assert_eq!(mv, 48);
    let (header, bitmap) = match vis {
        VideoIndexState::BMP(h, b) => (h, b),
        v => panic!("unexpected sub-state: {:?}", v),
    };
    assert_eq!(bitmap.size, 40);
    // the alignment record: 8 header bytes plus its declared padding
    ctx.stream_offset = 124;
    let junk = buf(&[b"JUNK", &le(6), &[0u8; 6]]);
    let (mv, vis) = parse_video_index_stream(&junk, &mut ctx, VideoIndexState::BMP(header, bitmap));
    assert_eq!(mv, 14);
    assert!(matches!(vis, VideoIndexState::End(_, _)));
    // anything but the alignment record fails the sub-protocol
    let (header, bitmap) = match vis {
        VideoIndexState::End(h, b) => (h, b),
        v => panic!("unexpected sub-state: {:?}", v),
    };
    let other = buf(&[b"idx1", &le(6)]);
    let (mv, vis) = parse_video_index_stream(&other, &mut ctx, VideoIndexState::BMP(header, bitmap));
    assert_eq!(mv, 0);
    assert_eq!(vis, VideoIndexState::Error);
}

#[test]
fn unpack_list_closes_regions_and_clips() {
    let ctx = Context {
        file_size: 1000,
        stream_offset: 50,
        level: vec![
            List { end_offset: 80, current: parser::List::Hdrl },
            List { end_offset: 50, current: parser::List::Unknown(7) },
        ],
        video: None,
    };
    let window = [0u8; 100];
    let (sl, ctx) = unpack_list(&window, ctx);
    // the inner region ended exactly here and was closed
    assert_eq!(ctx.level.len(), 1);
    assert_eq!(ctx.level[0].end_offset, 80);
    // the window is clipped to the remaining budget of the outer region
    assert_eq!(sl.len(), 30);
    assert_eq!(ctx.stream_offset, 50);

    // with no open region the window is handed back whole
    let ctx = Context { file_size: 1000, stream_offset: 5, level: vec![], video: None };
    let (sl, _) = unpack_list(&window, ctx);
    assert_eq!(sl.len(), 100);
}
