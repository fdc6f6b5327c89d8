use klipt::media::{
    audio_args, compose_vf, compose_vf_speed, crop_filter, filmstrip_args, gif_args,
    input_segment, input_segment_out, nvenc_unavailable, quality_scale_filter, waveform_args,
    FilmstripOpts, GifOpts, WaveformOpts,
};

// Find the value passed to a single-occurrence flag in an arg vector.
fn flag_val<'a>(args: &'a [String], flag: &str) -> Option<&'a str> {
    args.iter()
        .position(|a| a == flag)
        .and_then(|i| args.get(i + 1))
        .map(|s| s.as_str())
}

fn maps(a: &[String]) -> Vec<&String> {
    a.iter()
        .enumerate()
        .filter(|(idx, s)| *s == "-map" && a.get(idx + 1).is_some())
        .map(|(idx, _)| &a[idx + 1])
        .collect()
}

#[test]
fn nvenc_unavailable_detects_unsupported_but_not_transient() {
    assert!(nvenc_unavailable("[h264_nvenc @ ...] Cannot load nvcuda.dll"));
    assert!(nvenc_unavailable("No NVENC capable devices found"));
    assert!(nvenc_unavailable("Unknown encoder 'h264_nvenc'"));
    // A generic / transient failure must NOT disable the GPU path.
    assert!(!nvenc_unavailable("Error while opening encoder - maybe incorrect parameters"));
    assert!(!nvenc_unavailable("Conversion failed!"));
    assert!(!nvenc_unavailable(""));
}

#[test]
fn nvenc_unavailable_knows_every_marker() {
    assert!(nvenc_unavailable("x Cannot load libcuda.so.1 y"));
    assert!(nvenc_unavailable("Cannot init CUDA"));
    assert!(nvenc_unavailable("[h264_nvenc] Cannot open encoder"));
    assert!(!nvenc_unavailable("cannot load nvcuda"));
}

#[test]
fn quality_scale_filter_downscales_without_upscaling() {
    assert_eq!(quality_scale_filter("720"), Some("scale=-2:'min(ih,720)'".to_string()));
    assert_eq!(quality_scale_filter("1080"), Some("scale=-2:'min(ih,1080)'".to_string()));
    assert_eq!(quality_scale_filter("480"), Some("scale=-2:'min(ih,480)'".to_string()));
    // "source" and legacy low/medium/high values keep the native resolution.
    assert_eq!(quality_scale_filter("source"), None);
    assert_eq!(quality_scale_filter("medium"), None);
}

#[test]
fn crop_filter_uses_ffmpeg_size_then_offset_order() {
    // ffmpeg order is crop=out_w:out_h:x:y, NOT x:y:w:h.
    assert_eq!(crop_filter(Some((320, 180, 1280, 720))), Some("crop=1280:720:320:180".to_string()));
    assert_eq!(crop_filter(None), None);
}

#[test]
fn compose_vf_puts_crop_before_scale() {
    let crop = Some("crop=1280:720:0:0".to_string());
    let scale = Some("scale=-2:'min(ih,720)'".to_string());
    assert_eq!(
        compose_vf(crop.clone(), scale.clone()),
        Some("crop=1280:720:0:0,scale=-2:'min(ih,720)'".to_string())
    );
    assert_eq!(compose_vf(crop.clone(), None), crop);
    assert_eq!(compose_vf(None, scale.clone()), scale);
    assert_eq!(compose_vf(None, None), None);
}

#[test]
fn compose_vf_speed_appends_setpts_last() {
    let crop = Some("crop=1280:720:0:0".to_string());
    let scale = Some("scale=-2:'min(ih,720)'".to_string());
    let setpts = Some("setpts=0.500000*PTS".to_string());
    // crop, then scale, then setpts: pixel order preserved, retime last.
    assert_eq!(
        compose_vf_speed(crop.clone(), scale.clone(), setpts.clone()),
        Some("crop=1280:720:0:0,scale=-2:'min(ih,720)',setpts=0.500000*PTS".to_string())
    );
    // setpts alone (no crop/scale).
    assert_eq!(compose_vf_speed(None, None, setpts.clone()), setpts);
    // No retime: identical to compose_vf.
    assert_eq!(compose_vf_speed(crop.clone(), scale.clone(), None), compose_vf(crop, scale));
    assert_eq!(compose_vf_speed(None, None, None), None);
}

#[test]
fn waveform_args_decodes_mono_pcm_to_stdout() {
    let a = waveform_args("in.mp4", &WaveformOpts { sample_rate: 4000 });
    assert_eq!(flag_val(&a, "-i"), Some("in.mp4"));
    assert!(a.contains(&"-vn".to_string()), "should drop video");
    assert_eq!(flag_val(&a, "-ac"), Some("1"));
    assert_eq!(flag_val(&a, "-ar"), Some("4000"));
    assert_eq!(flag_val(&a, "-f"), Some("s16le"));
    assert_eq!(a.last().unwrap(), "pipe:1");
}

#[test]
fn gif_args_builds_palette_graph_with_region_and_defaults() {
    let opts = GifOpts { fps: 15, width: 640, webp: false };
    let a = gif_args("in.mp4", "2.5", "4", None, &opts, "out.gif");
    // Region seek + duration.
    assert_eq!(flag_val(&a, "-ss"), Some("2.5"));
    assert_eq!(flag_val(&a, "-t"), Some("4"));
    assert_eq!(flag_val(&a, "-i"), Some("in.mp4"));
    // Single-pass palette graph for quality.
    let filter = flag_val(&a, "-filter_complex").unwrap();
    assert!(filter.contains("fps=15"), "filter: {filter}");
    assert!(filter.contains("scale=640:-1:flags=lanczos"), "filter: {filter}");
    assert!(filter.contains("palettegen"), "filter: {filter}");
    assert!(filter.contains("paletteuse"), "filter: {filter}");
    // Loops forever, no audio, writes the gif.
    assert_eq!(flag_val(&a, "-loop"), Some("0"));
    assert!(a.contains(&"-an".to_string()));
    assert_eq!(a.last().unwrap(), "out.gif");
}

#[test]
fn gif_args_webp_is_truecolour_single_pass() {
    let opts = GifOpts { fps: 24, width: 800, webp: true };
    let a = gif_args("in.mp4", "0", "3", None, &opts, "out.webp");
    // WebP uses a plain -vf scale chain via libwebp, no palette.
    let vf = flag_val(&a, "-vf").unwrap();
    assert!(vf.contains("fps=24"), "vf: {vf}");
    assert!(vf.contains("scale=800:-1:flags=lanczos"), "vf: {vf}");
    assert!(!a.iter().any(|s| s.contains("palettegen")));
    assert_eq!(flag_val(&a, "-c:v"), Some("libwebp"));
    assert_eq!(flag_val(&a, "-loop"), Some("0"));
    assert_eq!(a.last().unwrap(), "out.webp");
}

#[test]
fn gif_args_clamps_fps_and_width() {
    // fps 0 -> floor 1; absurd width -> ceiling 1920.
    let opts = GifOpts { fps: 0, width: 9999, webp: false };
    let a = gif_args("in.mp4", "0", "1", None, &opts, "out.gif");
    let filter = flag_val(&a, "-filter_complex").unwrap();
    assert!(filter.contains("fps=1"), "filter: {filter}");
    assert!(filter.contains("scale=1920:-1"), "filter: {filter}");
}

#[test]
fn gif_args_injects_setpts_for_speed_keeping_input_t() {
    let opts = GifOpts { fps: 15, width: 640, webp: false };
    // 2x GIF: setpts leads the palette graph; -t stays the source region.
    let a = gif_args("in.mp4", "0", "4", Some("setpts=0.500000*PTS"), &opts, "out.gif");
    let filter = flag_val(&a, "-filter_complex").unwrap();
    assert!(filter.starts_with("setpts=0.500000*PTS,fps=15"), "filter: {filter}");
    assert_eq!(flag_val(&a, "-t"), Some("4"));
    // 1x adds no setpts.
    let b = gif_args("in.mp4", "0", "4", None, &opts, "out.gif");
    assert!(!flag_val(&b, "-filter_complex").unwrap().contains("setpts"));
    // WebP path retimes too.
    let w = gif_args(
        "in.mp4",
        "0",
        "4",
        Some("setpts=2.000000*PTS"),
        &GifOpts { fps: 24, width: 480, webp: true },
        "out.webp",
    );
    assert!(flag_val(&w, "-vf").unwrap().starts_with("setpts=2.000000*PTS,fps=24"));
}

#[test]
fn filmstrip_args_resamples_keyframes_evenly() {
    // 10 cells over 20 s: the caller renders the rate 10/20 as "0.500000".
    let opts = FilmstripOpts { cols: 10, frame_width: 160, rate: Some("0.500000".to_string()) };
    let a = filmstrip_args("in.mp4", &opts, "out.jpg");
    // One input open, decoder restricted to keyframes.
    assert_eq!(a.iter().filter(|s| *s == "-i").count(), 1);
    assert_eq!(flag_val(&a, "-i"), Some("in.mp4"));
    assert_eq!(flag_val(&a, "-skip_frame"), Some("nokey"));
    assert_eq!(flag_val(&a, "-threads"), Some("1"));
    assert_eq!(flag_val(&a, "-frames:v"), Some("1"));
    // No per-cell seeks.
    assert_eq!(a.iter().filter(|s| *s == "-ss").count(), 0);
    let f = flag_val(&a, "-vf").unwrap();
    assert!(f.contains("fps=0.500000"), "vf: {f}");
    assert!(f.contains("scale=160:-2:flags=lanczos"), "vf: {f}");
    assert!(f.contains("tile=10x1"), "vf: {f}");
    assert_eq!(a.last().unwrap(), "out.jpg");
}

#[test]
fn filmstrip_args_falls_back_when_duration_unknown() {
    // Unknown duration: sample one keyframe a second from the head.
    let opts = FilmstripOpts { cols: 8, frame_width: 120, rate: None };
    let a = filmstrip_args("in.mp4", &opts, "out.jpg");
    assert_eq!(flag_val(&a, "-skip_frame"), Some("nokey"));
    assert_eq!(flag_val(&a, "-threads"), Some("1"));
    assert_eq!(a.iter().filter(|s| *s == "-i").count(), 1);
    let vf = flag_val(&a, "-vf").unwrap();
    assert!(vf.contains("fps=1.000000"), "vf: {vf}");
    assert!(vf.contains("tile=8x1"), "vf: {vf}");
}

#[test]
fn input_segment_builds_seek_input_duration_and_maps() {
    let a = input_segment("in.mp4", "2.5", "4", "0:v?", true);
    assert_eq!(flag_val(&a, "-ss"), Some("2.5"));
    assert_eq!(flag_val(&a, "-i"), Some("in.mp4"));
    assert_eq!(flag_val(&a, "-t"), Some("4"));
    // -ss precedes -i (fast keyframe input seek).
    let ss = a.iter().position(|s| s == "-ss").unwrap();
    let i = a.iter().position(|s| s == "-i").unwrap();
    assert!(ss < i, "-ss must come before -i");
    assert_eq!(maps(&a), vec!["0:v?", "0:a?"]);
}

#[test]
fn input_segment_omits_audio_map_when_excluded() {
    let a = input_segment("in.mp4", "0", "1", "0:v:0", false);
    assert_eq!(flag_val(&a, "-map"), Some("0:v:0"));
    assert_eq!(a.iter().filter(|s| *s == "-map").count(), 1, "no audio map");
    assert!(!a.iter().any(|s| s == "0:a?"));
}

#[test]
fn input_segment_out_caps_output_at_retimed_duration() {
    // 0.5x of a 4 s region -> 8 s of output; -ss/-i still cover the source.
    let a = input_segment_out("in.mp4", "2", "8", "0:v:0", true);
    assert_eq!(flag_val(&a, "-ss"), Some("2"));
    assert_eq!(flag_val(&a, "-i"), Some("in.mp4"));
    assert_eq!(flag_val(&a, "-t"), Some("8"));
    let i = a.iter().position(|s| s == "-i").unwrap();
    let t = a.iter().position(|s| s == "-t").unwrap();
    assert!(i < t, "-t must remain an output cap (after -i)");
    assert_eq!(maps(&a), vec!["0:v:0", "0:a?"]);
}

#[test]
fn audio_args_m4a_copies_then_falls_back_to_aac() {
    let copy = audio_args("in.mp4", "1", "3", None, false, true, "out.m4a");
    assert!(copy.contains(&"-vn".to_string()), "drops video");
    assert_eq!(flag_val(&copy, "-map"), Some("0:a:0"));
    assert_eq!(flag_val(&copy, "-c:a"), Some("copy"));
    assert_eq!(flag_val(&copy, "-movflags"), Some("+faststart"));
    assert_eq!(copy.last().unwrap(), "out.m4a");
    // copy=false -> AAC re-encode for a non-AAC source.
    let aac = audio_args("in.mp4", "1", "3", None, false, false, "out.m4a");
    assert_eq!(flag_val(&aac, "-c:a"), Some("aac"));
    assert_eq!(flag_val(&aac, "-b:a"), Some("192k"));
}

#[test]
fn audio_args_mp3_always_reencodes() {
    let a = audio_args("in.mp4", "0", "2", None, true, true, "out.mp3");
    assert!(a.contains(&"-vn".to_string()));
    assert_eq!(flag_val(&a, "-c:a"), Some("libmp3lame"));
    assert_eq!(flag_val(&a, "-q:a"), Some("2"));
    // MP3 never stream-copies even if copy=true was passed.
    assert!(!a.iter().any(|s| s == "copy"));
    assert_eq!(a.last().unwrap(), "out.mp3");
}

#[test]
fn audio_args_speed_forces_reencode_with_atempo() {
    // 0.5x M4A: even with copy=true, atempo forces an AAC re-encode.
    let a = audio_args("in.mp4", "0", "4", Some("atempo=0.500000"), false, true, "out.m4a");
    assert_eq!(flag_val(&a, "-filter:a"), Some("atempo=0.500000"));
    assert_eq!(flag_val(&a, "-c:a"), Some("aac"));
    assert!(!a.iter().any(|s| s == "copy"), "speed must not stream-copy");
    // 4x chains atempo; MP3 keeps libmp3lame plus the filter.
    let m = audio_args("in.mp4", "0", "4", Some("atempo=2.0,atempo=2.000000"), true, true, "out.mp3");
    assert_eq!(flag_val(&m, "-filter:a"), Some("atempo=2.0,atempo=2.000000"));
    assert_eq!(flag_val(&m, "-c:a"), Some("libmp3lame"));
    // 1x is unchanged: copy still allowed, no audio filter.
    let c = audio_args("in.mp4", "0", "4", None, false, true, "out.m4a");
    assert_eq!(flag_val(&c, "-c:a"), Some("copy"));
    assert!(!c.iter().any(|s| s == "-filter:a"));
}

#[test]
fn audio_stream_copies_only_for_unfiltered_m4a_when_asked() {
    let has_copy = |a: &Vec<String>| a.iter().any(|s| s == "copy");
    assert!(has_copy(&audio_args("in.mp4", "1", "3", None, false, true, "out.m4a")));
    assert!(!has_copy(&audio_args("in.mp4", "1", "3", Some("atempo=2.0"), false, true, "out.m4a")));
    assert!(!has_copy(&audio_args("in.mp4", "1", "3", None, false, false, "out.m4a")));
    assert!(!has_copy(&audio_args("in.mp4", "1", "3", None, true, true, "out.mp3")));
}

#[test]
fn only_gif_exports_build_a_palette() {
    let names_palette = |a: &Vec<String>| a.iter().any(|s| s.contains("palettegen"));
    for fps in [0, 15, 60] {
        for width in [10, 640, 4000] {
            let gif = GifOpts { fps, width, webp: false };
            let webp = GifOpts { fps, width, webp: true };
            assert!(names_palette(&gif_args("in.mp4", "0", "3", Some("setpts=0.5*PTS"), &gif, "o.gif")));
            assert!(!names_palette(&gif_args("in.mp4", "0", "3", Some("setpts=0.5*PTS"), &webp, "o.webp")));
            assert!(!names_palette(&gif_args("in.mp4", "0", "3", None, &webp, "o.webp")));
        }
    }
}
