use std::sync::Arc;

use oneplayer::engine::screen::{on_switch_failed, switch_command};
use oneplayer::engine::EngineEvent;
use oneplayer::render::compositor::{scene_draws, ElementDraw};
use oneplayer::render::ffmpeg::{
    append_hwaccel_args, decode_args, ffmpeg_binary_name, ffprobe_binary_name, hwaccel_enabled,
    normalize_hwaccel, tool_candidates, video_filter,
};
use oneplayer::render::image::{decode_image, fit_image};
use oneplayer::render::layout::{
    find_file, image_elements, parse_hex_color, scene_render_plan, video_element,
};
use oneplayer::render::scene::{PrepareAction, PrepareEvent};
use oneplayer::render::switching::{CommandStep, OutcomeStep, PrepareOutcome, SwitchCoordinator};
use oneplayer::render::text::TextRenderer;
use oneplayer::render::video::{
    frame_bytes, wait_step, FramePacer, FrameReader, Lease, ReaderAction, ReaderEvent,
    StubVideoDecoder, VideoDecoder, VideoDecoderPool, WaitStep,
};
use oneplayer::render::{
    DoubleBufferCompositor, ImageCache, LayoutRenderer, PreparedScene, RgbaBitmap, ScenePreparer,
};
use oneplayer::sample::sample_scene;
use oneplayer::timeline::{LayoutDefinition, LayoutElement, PlaybackScene, PlaybackTimeline};

#[test]
fn normalize_hwaccel_values() {
    assert_eq!(normalize_hwaccel(" D3D11VA ".into()), "d3d11va");
    assert!(!hwaccel_enabled("none"));
    assert!(hwaccel_enabled("cuda"));
}

#[test]
fn cuda_filter_uses_scale_cuda() {
    assert_eq!(
        video_filter("cuda", 1920, 1080),
        "scale_cuda=1920:1080,hwdownload,format=rgba"
    );
}

#[test]
fn d3d11va_filter_uses_cpu_scale() {
    assert_eq!(video_filter("d3d11va", 1080, 1920), "scale=1080:1920");
}

#[test]
fn append_cuda_hwaccel_args() {
    let mut args: Vec<String> = Vec::new();
    append_hwaccel_args(&mut args, "cuda");
    assert!(args.windows(2).any(|w| w == ["-hwaccel", "cuda"]));
}

#[test]
fn other_methods_have_their_own_arguments() {
    for off in ["", "none", "off", "software"] {
        let mut args: Vec<String> = Vec::new();
        append_hwaccel_args(&mut args, off);
        assert!(args.is_empty());
        assert!(!hwaccel_enabled(off));
    }
    let mut args: Vec<String> = Vec::new();
    append_hwaccel_args(&mut args, "qsv");
    assert_eq!(args, vec!["-hwaccel", "qsv"]);
    assert_eq!(video_filter("qsv", 0, 1), "scale_qsv=w=2:h=2,hwdownload,format=rgba");
    assert_eq!(video_filter("opencl", 4, 5), "scale_opencl=4:5,hwdownload,format=rgba");
}

#[test]
fn the_decoder_is_told_everything() {
    assert_eq!(
        decode_args("d3d11va", true, "/a/b.bin", 640, 1),
        vec![
            "-hide_banner",
            "-loglevel",
            "error",
            "-hwaccel",
            "d3d11va",
            "-stream_loop",
            "-1",
            "-i",
            "/a/b.bin",
            "-an",
            "-sn",
            "-vf",
            "scale=640:2",
            "-f",
            "rawvideo",
            "-pix_fmt",
            "rgba",
            "pipe:1",
        ]
    );
    assert_eq!(decode_args("", false, "x", 2, 2).len(), 14);
}

#[test]
fn programs_are_looked_for_in_order() {
    let places = tool_candidates(
        Some("/set".to_string()),
        Some("/exe".to_string()),
        vec!["/usr/bin".to_string(), "/bin".to_string()],
        "ffmpeg",
    );
    let paths: Vec<String> = places
        .iter()
        .map(|p| format!("{}/{}", p.root, p.segments.join("/")))
        .collect();
    assert_eq!(
        paths,
        vec!["/set/ffmpeg", "/exe/ffmpeg", "tools/ffmpeg/ffmpeg", "/usr/bin/ffmpeg", "/bin/ffmpeg"]
    );
    assert_eq!(tool_candidates(None, None, vec![], "f").len(), 1);
    assert_eq!(ffmpeg_binary_name(true), "ffmpeg.exe");
    assert_eq!(ffprobe_binary_name(false), "ffprobe");
}

#[test]
fn hardware_is_tried_once() {
    let mut pool = VideoDecoderPool::new(2, " CUDA ".to_string());
    let first = pool.first_attempt();
    assert_eq!((first.hwaccel.as_str(), first.wait_ms), ("cuda", 3_000));
    let second = pool.attempt_failed(&first).unwrap();
    assert_eq!((second.hwaccel.as_str(), second.wait_ms), ("", 8_000));
    assert!(pool.attempt_failed(&second).is_none());
    assert_eq!(pool.first_attempt().wait_ms, 8_000);
}

#[test]
fn decoders_are_lent_one_scene_at_a_time() {
    let mut pool = VideoDecoderPool::new(2, String::new());
    assert_eq!(pool.acquire(), Lease::Slot(0));
    assert_eq!(pool.acquire(), Lease::Slot(1));
    assert_eq!(pool.acquire(), Lease::Temporary);
    pool.release(Lease::Slot(0));
    pool.release(Lease::Temporary);
    assert_eq!(pool.acquire(), Lease::Slot(0));
    let mut least = VideoDecoderPool::new(0, String::new());
    assert_eq!(least.acquire(), Lease::Slot(0));
    assert_eq!(least.acquire(), Lease::Temporary);
}

#[test]
fn the_first_frame_is_waited_for() {
    assert_eq!(wait_step(true, true, 9_000, 8_000), WaitStep::Ready);
    assert_eq!(wait_step(false, true, 0, 8_000), WaitStep::Exited);
    assert_eq!(wait_step(false, false, 8_000, 8_000), WaitStep::TimedOut);
    assert_eq!(wait_step(false, false, 7_999, 8_000), WaitStep::Sleep(20));
}

#[test]
fn a_reader_stops_after_the_first_frame() {
    let mut reader = FrameReader::new();
    assert_eq!(reader.on_event(ReaderEvent::FrameRead), ReaderAction::PublishFirst);
    assert_eq!(
        reader.on_event(ReaderEvent::Looked { started: false, stopping: false }),
        ReaderAction::LookAfter(5)
    );
    assert_eq!(
        reader.on_event(ReaderEvent::Looked { started: true, stopping: false }),
        ReaderAction::Read
    );
    assert_eq!(reader.on_event(ReaderEvent::FrameRead), ReaderAction::Send);
    assert_eq!(
        reader.on_event(ReaderEvent::Full { stopping: false }),
        ReaderAction::SendAfter(5)
    );
    assert_eq!(reader.on_event(ReaderEvent::Sent { stopping: false }), ReaderAction::Read);
    assert_eq!(reader.on_event(ReaderEvent::ReadFailed), ReaderAction::Stop);
    assert_eq!(reader.on_event(ReaderEvent::FrameRead), ReaderAction::Stop);
    let mut empty = FrameReader::new();
    assert_eq!(empty.on_event(ReaderEvent::ReadFailed), ReaderAction::Stop);
    let mut stopped = FrameReader::new();
    stopped.on_event(ReaderEvent::FrameRead);
    assert_eq!(
        stopped.on_event(ReaderEvent::Looked { started: true, stopping: true }),
        ReaderAction::Stop
    );
}

#[test]
fn frames_are_paced() {
    let mut pacer = FramePacer::new();
    assert!(!pacer.start(false));
    assert!(!pacer.started());
    assert!(pacer.start(true));
    assert!(!pacer.start(true));
    assert!(!pacer.wants_frame(1));
    assert!(pacer.wants_frame(3));
    pacer.frame_taken();
    pacer.frame_taken();
    assert!(!pacer.wants_frame(3));
    pacer.reset();
    assert!(pacer.start(true));
    assert_eq!(frame_bytes(3, 5), 60);
}

#[test]
fn the_stub_decodes_black() {
    let mut stub = StubVideoDecoder::new();
    assert!(stub.decode_next_frame().unwrap().is_none());
    stub.open("/x", 10, 10, false).unwrap();
    stub.preroll().unwrap();
    assert!(stub.has_first_frame());
    assert!(stub.first_frame_at_millis().unwrap() > 1_600_000_000_000);
    let frame = stub.decode_next_frame().unwrap().unwrap();
    assert_eq!((frame.width, frame.height, frame.rgba.len()), (2, 2, 16));
    assert_eq!(&frame.rgba[0..4], &[0, 0, 0, 255]);
    stub.seek_to_start().unwrap();
    stub.stop();
    assert!(!stub.has_first_frame());
    assert_eq!(stub.first_frame_at_millis(), None);
    stub.prerolled_at(7);
    assert_eq!(stub.first_frame_at_millis(), Some(7));
    stub.reset_first_frame();
    assert!(!StubVideoDecoder::default().has_first_frame());
    assert_eq!(TextRenderer::new(), TextRenderer::default());
}

fn bitmap(width: u32, height: u32, value: u8) -> RgbaBitmap {
    RgbaBitmap {
        width,
        height,
        rgba: vec![value; (width * height * 4) as usize],
    }
}

#[test]
fn images_are_found_again() {
    let mut cache = ImageCache::default_sized();
    assert!(cache.get("a").is_none());
    cache.insert("a".to_string(), bitmap(2, 3, 7));
    assert_eq!(cache.get("a").unwrap().rgba[0], 7);
    cache.insert("a".to_string(), bitmap(2, 3, 9));
    assert_eq!(cache.get("a").unwrap().rgba[0], 9);
    cache.clear();
    assert!(cache.get("a").is_none());
}

#[test]
fn images_that_were_not_used_for_longest_go() {
    // Room for two images of 600 bytes.
    let mut cache = ImageCache::new(1_200);
    cache.insert("a".to_string(), bitmap(15, 10, 1));
    cache.insert("b".to_string(), bitmap(15, 10, 2));
    assert!(cache.get("a").is_some());
    cache.insert("c".to_string(), bitmap(15, 10, 3));
    assert!(cache.get("b").is_none());
    assert!(cache.get("a").is_some());
    assert!(cache.get("c").is_some());
    cache.partial_trim(600);
    assert!(cache.get("a").is_none());
    assert!(cache.get("c").is_some());
    cache.partial_trim(0);
    assert!(cache.get("c").is_none());
}

#[test]
fn an_image_over_the_limit_is_kept_alone() {
    let mut cache = ImageCache::new(0);
    cache.preload(vec![
        ("a".to_string(), bitmap(10, 10, 1)),
        ("big".to_string(), bitmap(30, 30, 2)),
    ]);
    assert!(cache.get("a").is_none());
    assert_eq!(cache.get("big").unwrap().width, 30);
}

#[test]
fn at_most_so_many_images_are_kept() {
    let mut cache = ImageCache::new(1 << 20);
    for i in 0..300 {
        cache.insert(format!("{i}"), bitmap(1, 1, 0));
    }
    assert!(cache.get("43").is_none());
    assert!(cache.get("44").is_some());
    assert!(cache.get("299").is_some());
}

fn element(id: &str, element_type: &str, file_id: Option<i64>, z_index: i32) -> LayoutElement {
    LayoutElement {
        id: id.to_string(),
        x: 0,
        y: 0,
        width: 100,
        height: 50,
        element_type: element_type.to_string(),
        keep_aspect_ratio: false,
        file_id,
        content: None,
        font: None,
        font_size: None,
        bold: false,
        italic: false,
        underline: false,
        strikethrough: false,
        background_color: None,
        text_color: None,
        border_color: None,
        border_width: None,
        z_index: Some(z_index),
    }
}

fn scene_with(elements: Vec<LayoutElement>) -> PlaybackScene {
    let mut scene = sample_scene("s", 1_000, 2_000, "#000000");
    scene.layout = Some(Arc::new(LayoutDefinition {
        id: 1,
        name: "l".to_string(),
        group_name: None,
        width: 1080,
        height: 1920,
        elements,
        default_duration: None,
    }));
    scene
}

fn files() -> Vec<(i64, String)> {
    vec![
        (1, "/old".to_string()),
        (1, "/one".to_string()),
        (2, "/two".to_string()),
        (9, "/video".to_string()),
    ]
}

#[test]
fn plans_are_in_drawing_order_with_their_files() {
    let scene = scene_with(vec![
        element("top", "image", Some(2), 5),
        element("low", "image", Some(1), 1),
        element("gone", "image", Some(3), 2),
        element("none", "text", None, 2),
    ]);
    let layout = scene.layout.as_ref().unwrap();
    let plan = LayoutRenderer::build_plan(layout, 100, 200, &files());
    let found: Vec<(&str, Option<&str>)> = plan
        .elements
        .iter()
        .map(|e| (e.element.id.as_str(), e.image_path.as_deref()))
        .collect();
    assert_eq!(
        found,
        vec![("low", Some("/one")), ("gone", None), ("none", None), ("top", Some("/two"))]
    );
    assert_eq!((plan.canvas_width, plan.canvas_height), (100, 200));
    assert_eq!(image_elements(&plan.elements), vec![0, 3]);
    assert_eq!(video_element(&plan.elements), None);
    assert_eq!(find_file(&files(), 1).as_deref(), Some("/one"));
    let mut bare = scene_with(vec![]);
    bare.layout = None;
    assert!(scene_render_plan(&bare, 1, 1, &files()).is_none());
}

#[test]
fn a_file_is_decoded_once() {
    let scene = scene_with(vec![
        element("a", "image", Some(1), 1),
        element("b", "image", Some(1), 2),
        element("c", "image", Some(2), 3),
    ]);
    let plan = scene_render_plan(&scene, 1, 1, &files()).unwrap();
    assert_eq!(image_elements(&plan.elements), vec![0, 2]);
}

#[test]
fn colors_are_read() {
    assert_eq!(parse_hex_color("#2244aa"), Some([0x22, 0x44, 0xaa, 255]));
    assert_eq!(parse_hex_color("##FFffFF80"), Some([255, 255, 255, 0x80]));
    assert_eq!(parse_hex_color("+f0000"), None);
    assert_eq!(parse_hex_color("#aa4422"), Some([170, 68, 34, 255]));
    assert_eq!(parse_hex_color("#12345"), None);
    assert_eq!(parse_hex_color("#12345g"), None);
    assert_eq!(parse_hex_color(""), None);
}

fn prepare_all(preparer: &mut ScenePreparer, scene: &PlaybackScene) -> PreparedScene {
    let mut run = preparer.prepare(scene, &files(), 5).unwrap();
    loop {
        let event = match run.next_action() {
            PrepareAction::DecodeImage(_) => PrepareEvent::ImageDecoded(bitmap(2, 2, 1)),
            PrepareAction::CheckFile(_) => PrepareEvent::FileFound(true),
            PrepareAction::Open(_) => PrepareEvent::Opened,
            PrepareAction::Preroll(_) => PrepareEvent::Prerolled,
            PrepareAction::Done => break,
            PrepareAction::Fail => panic!("{}", run.failure()),
        };
        preparer.on_event(&mut run, event);
    }
    run.finish().unwrap()
}

fn video_scene() -> PlaybackScene {
    scene_with(vec![
        element("image", "image", Some(1), 1),
        element("video", "video", Some(9), 2),
    ])
}

#[test]
fn a_scene_is_prepared_step_by_step() {
    let mut preparer = ScenePreparer::new(1080, 1920, String::new());
    let scene = video_scene();
    let mut run = preparer.prepare(&scene, &files(), 5).unwrap();
    assert_eq!(run.next_action(), PrepareAction::DecodeImage(0));
    preparer.on_event(&mut run, PrepareEvent::Opened);
    assert_eq!(run.next_action(), PrepareAction::DecodeImage(0));
    preparer.on_event(&mut run, PrepareEvent::ImageDecoded(bitmap(2, 2, 1)));
    assert_eq!(run.next_action(), PrepareAction::CheckFile(1));
    assert!(preparer.image_cache().get("/one").is_some());
    preparer.on_event(&mut run, PrepareEvent::FileFound(true));
    assert_eq!(run.next_action(), PrepareAction::Open(1));
    assert_eq!(run.lease(), Some(Lease::Slot(0)));
    preparer.on_event(&mut run, PrepareEvent::Opened);
    assert_eq!(run.next_action(), PrepareAction::Preroll(1));
    preparer.on_event(&mut run, PrepareEvent::Prerolled);
    assert_eq!(run.next_action(), PrepareAction::Done);
    let prepared = run.finish().unwrap();
    assert!(prepared.is_video);
    assert_eq!(prepared.prepared_at_millis, 5);
    assert_eq!(prepared.images.len(), 1);
    assert!(!prepared.first_frame_ready(None));
    assert!(!prepared.first_frame_ready(Some(false)));
    assert!(prepared.first_frame_ready(Some(true)));
    preparer.release(prepared.lease);
    assert_eq!(preparer.video_pool().acquire(), Lease::Slot(0));
}

#[test]
fn a_missing_video_is_told_by_its_file() {
    let mut preparer = ScenePreparer::new(1080, 1920, String::new());
    let scene = scene_with(vec![element("video", "video", Some(9), 2)]);
    let mut run = preparer.prepare(&scene, &files(), 5).unwrap();
    preparer.on_event(&mut run, PrepareEvent::FileFound(false));
    assert_eq!(run.next_action(), PrepareAction::Fail);
    assert_eq!(run.failure(), "video asset file missing: /video");
    assert!(run.finish().is_none());
    let mut bare = scene_with(vec![]);
    bare.layout = None;
    assert_eq!(
        preparer.prepare(&bare, &files(), 5).unwrap_err(),
        "scene has no layout"
    );
}

#[test]
fn a_failed_scene_gives_its_decoder_back() {
    let mut preparer = ScenePreparer::new(1080, 1920, String::new());
    let scene = scene_with(vec![element("video", "video", Some(9), 2)]);
    let mut run = preparer.prepare(&scene, &files(), 5).unwrap();
    preparer.on_event(&mut run, PrepareEvent::FileFound(true));
    preparer.on_event(&mut run, PrepareEvent::Opened);
    preparer.on_event(&mut run, PrepareEvent::Failed("broken".to_string()));
    assert_eq!(run.failure(), "broken");
    assert_eq!(run.lease(), None);
    assert_eq!(preparer.video_pool().acquire(), Lease::Slot(0));
}

#[test]
fn layers_change_places_at_the_time() {
    let mut preparer = ScenePreparer::new(1080, 1920, String::new());
    let plain = prepare_all(&mut preparer, &scene_with(vec![]));
    let mut screen = DoubleBufferCompositor::new();
    assert!(screen.tick(5_000, None).is_none());
    screen.switch_at(1_000);
    assert!(screen.tick(5_000, None).is_none());
    assert!(screen.switch_now(5_000).is_none());
    assert_eq!(screen.preload(plain), None);
    screen.switch_at(1_000);
    assert!(screen.tick(999, None).is_none());
    assert!(!screen.front().visible);
    let (result, freed) = screen.tick(1_010, None).unwrap();
    assert_eq!(
        (result.target_time_millis, result.actual_time_millis, result.delay_millis),
        (1_000, 1_010, 10)
    );
    assert_eq!(result.scene_id, "s");
    assert_eq!(freed, None);
    assert_eq!(screen.active(), 1);
    assert!(screen.front().visible);
    assert!(!screen.back().visible);
    assert!(screen.tick(2_000, None).is_none());
}

#[test]
fn videos_wait_for_their_first_frame() {
    let mut preparer = ScenePreparer::new(1080, 1920, String::new());
    let mut screen = DoubleBufferCompositor::new();
    screen.preload(prepare_all(&mut preparer, &video_scene()));
    screen.switch_at(1_000);
    assert!(screen.tick(1_000, Some(false)).is_none());
    assert!(screen.tick(3_000, None).is_none());
    assert!(screen.tick(3_001, None).is_some());
    screen.preload(prepare_all(&mut preparer, &video_scene()));
    screen.switch_at(4_000);
    let (result, freed) = screen.tick(4_000, Some(true)).unwrap();
    assert_eq!(result.delay_millis, 0);
    assert_eq!(freed, Some(Lease::Slot(0)));
    screen.preload(prepare_all(&mut preparer, &video_scene()));
    let replaced = screen.preload(prepare_all(&mut preparer, &scene_with(vec![])));
    assert_eq!(replaced, Some(Lease::Temporary));
    let (now, _) = screen.switch_now(9_000).unwrap();
    assert_eq!((now.target_time_millis, now.delay_millis), (9_000, 0));
}

#[test]
fn elements_are_drawn_for_what_they_are() {
    let mut preparer = ScenePreparer::new(1080, 1920, String::new());
    let mut text = element("text", "text", None, 3);
    text.background_color = Some("#010203".to_string());
    let mut odd = element("odd", "text", None, 4);
    odd.background_color = Some("blue".to_string());
    let scene = scene_with(vec![
        element("image", "image", Some(1), 1),
        element("missing", "image", Some(77), 1),
        element("video", "video", Some(9), 2),
        text,
        odd,
        element("bare", "text", None, 5),
        element("web", "web", None, 6),
    ]);
    let prepared = prepare_all(&mut preparer, &scene);
    let draws = scene_draws(&prepared);
    assert_eq!(draws.len(), 4);
    assert!(matches!(draws[0], (0, ElementDraw::Image(0))));
    assert!(matches!(draws[1], (2, ElementDraw::Video)));
    assert!(matches!(draws[2], (3, ElementDraw::Fill([1, 2, 3, 255]))));
    assert!(matches!(draws[3], (4, ElementDraw::Fill([30, 30, 30, 255]))));
}

#[test]
fn commands_become_what_is_on_screen() {
    let mut preparer = ScenePreparer::new(1080, 1920, String::new());
    let mut coordinator = SwitchCoordinator::new();
    let scene = scene_with(vec![]);
    let command = switch_command(&scene, 1_000, vec![]);
    assert_eq!(coordinator.on_command(false, &command), CommandStep::Stop);
    assert_eq!(coordinator.on_command(true, &command), CommandStep::Prepare);
    assert_eq!(coordinator.on_command(true, &command), CommandStep::Skip);
    let step = coordinator.on_outcome(PrepareOutcome::Failed {
        scene_id: "s".to_string(),
        target_time_millis: 1_000,
        reason: "why".to_string(),
    });
    assert!(matches!(step, OutcomeStep::Report { ref reason, .. } if reason == "why"));
    assert!(coordinator.tick(1_000, None).is_none());
    assert_eq!(coordinator.on_command(true, &command), CommandStep::Prepare);
    let prepared = prepare_all(&mut preparer, &scene);
    let step = coordinator.on_outcome(PrepareOutcome::Ready {
        scene: prepared,
        target_time_millis: 1_000,
    });
    assert!(matches!(step, OutcomeStep::Preloaded { ref scene_id, freed: None } if scene_id == "s"));
    assert!(coordinator.tick(999, None).is_none());
    assert!(coordinator.tick(1_000, None).is_some());
    assert_eq!(coordinator.compositor().active(), 1);
}

#[test]
fn a_failed_auction_is_replaced() {
    let mut sold = sample_scene("ad", 0, 10, "#000000");
    sold.rtb = Some(oneplayer::timeline::RtbSceneMetadata {
        slot_id: "slot-1".to_string(),
        request_id: None,
        bid_id: "b".to_string(),
        imp_id: "1".to_string(),
        ad_id: "a".to_string(),
        creative_id: "c".to_string(),
        price: None,
        currency: "KRW".to_string(),
        tracking: vec![],
    });
    sold.fallback_scene = Some(Box::new(sample_scene("base", 0, 10, "#000000")));
    let timeline = PlaybackTimeline {
        device_id: "d".to_string(),
        date: "2026-05-20".to_string(),
        revision: "r".to_string(),
        server_time: None,
        generated_at: None,
        timezone: "Asia/Seoul".to_string(),
        scenes: vec![sold, sample_scene("plain", 10, 20, "#000000")],
    };
    let report = on_switch_failed(&timeline, "ad", "broken");
    assert_eq!(report.failed_slot.as_deref(), Some("slot-1"));
    assert_eq!(report.fallback.unwrap().scene_id, "base");
    assert!(matches!(report.event, EngineEvent::SwitchFailed { ref reason, .. } if reason == "broken"));
    let plain = on_switch_failed(&timeline, "plain", "broken");
    assert!(plain.failed_slot.is_none() && plain.fallback.is_none());
    let unknown = on_switch_failed(&timeline, "nobody", "broken");
    assert!(unknown.failed_slot.is_none());
}

fn png(width: u32, height: u32, color: [u8; 4]) -> Vec<u8> {
    let picture = image::RgbaImage::from_pixel(width, height, image::Rgba(color));
    let mut bytes = std::io::Cursor::new(Vec::new());
    picture.write_to(&mut bytes, image::ImageFormat::Png).unwrap();
    bytes.into_inner()
}

#[test]
fn images_are_decoded_and_fitted() {
    let bytes = png(3, 2, [10, 20, 30, 255]);
    let whole = decode_image(&bytes, 0, 7).unwrap();
    assert_eq!((whole.width, whole.height), (3, 2));
    assert_eq!(whole.rgba, [10, 20, 30, 255].repeat(6));
    let sized = decode_image(&bytes, 4, 5).unwrap();
    assert_eq!((sized.width, sized.height), (4, 5));
    assert_eq!(sized.rgba, [10, 20, 30, 255].repeat(20));
    assert!(decode_image(&vec![1, 2, 3], 4, 5).is_err());
}

#[test]
fn only_sides_that_cannot_be_computed_are_refused() {
    let long = fit_image(bitmap(2, 1, 7), 1_048_577, 1).unwrap();
    assert_eq!((long.width, long.height), (1_048_577, 1));
    assert_eq!(long.rgba, [7].repeat(4 * 1_048_577));
    let short = fit_image(bitmap(4_194_305, 1, 9), 3, 1).unwrap();
    assert_eq!(short.rgba, [9].repeat(12));
    assert_eq!(
        fit_image(bitmap(4_194_305, 1, 9), 8_388_609, 1).unwrap_err(),
        "image is too large to be resized"
    );
    let same = fit_image(bitmap(8_388_610, 1, 3), 8_388_610, 1).unwrap();
    assert_eq!(same.rgba.len(), 4 * 8_388_610);
}

#[test]
fn a_picture_is_brought_to_the_size_at_which_it_is_shown() {
    let checkered = RgbaBitmap {
        width: 2,
        height: 1,
        rgba: vec![0, 0, 0, 255, 255, 255, 255, 255],
    };
    let one = fit_image(checkered, 1, 1).unwrap();
    assert_eq!((one.width, one.height, one.rgba.len()), (1, 1, 4));
    assert!(one.rgba[0] > 100 && one.rgba[0] < 155);
    let same = fit_image(bitmap(2, 2, 7), 0, 0).unwrap();
    assert_eq!(same.rgba, bitmap(2, 2, 7).rgba);
}

#[test]
fn a_scene_shows_what_its_files_hold() {
    let mut preparer = ScenePreparer::new(1080, 1920, String::new());
    let scene = scene_with(vec![element("image", "image", Some(1), 1)]);
    let mut run = preparer.prepare(&scene, &files(), 5).unwrap();
    preparer.on_image_bytes(&mut run, &png(1, 1, [1, 2, 3, 255]), 2, 1);
    let prepared = run.finish().unwrap();
    assert_eq!(prepared.images[0].0, "/one");
    assert_eq!(prepared.images[0].1.rgba, vec![1, 2, 3, 255, 1, 2, 3, 255]);
}

#[test]
fn an_image_that_cannot_be_decoded_is_told_by_its_file() {
    let mut preparer = ScenePreparer::new(1080, 1920, String::new());
    let scene = scene_with(vec![element("image", "image", Some(1), 1)]);
    let mut run = preparer.prepare(&scene, &files(), 5).unwrap();
    preparer.on_event(&mut run, PrepareEvent::Failed("no such file".to_string()));
    assert_eq!(run.failure(), "image decode failed: /one: no such file");
    let mut other = preparer.prepare(&scene, &files(), 5).unwrap();
    preparer.on_image_bytes(&mut other, &vec![0, 1], 2, 1);
    assert_eq!(other.next_action(), PrepareAction::Fail);
    assert!(other.failure().starts_with("image decode failed: /one: "));
}
