use cropgun::daemon::should_queue;
use cropgun::config::{PreprocessingMode, ProcessingConfig};
use cropgun::daemon::{after_failed_open, DaemonWatcher, OpenRetry, ProcessedFiles, MAX_OPEN_RETRIES};
use cropgun::image_processor::{check_crop, CropRegion, ImageProcessor};
use cropgun::layout::{gray_to_rgb_pixels, label_box, outline_frames, preview_grid_layout, DrawRect};
use cropgun::paths::determine_path_type;

fn config(output_dir: Option<&str>) -> ProcessingConfig {
    ProcessingConfig {
        debug_enabled: false,
        prefix: "IMG_".to_string(),
        preprocess_mode: PreprocessingMode::NoPreprocessing,
        output_dir: output_dir.map(|s| s.to_string()),
    }
}

#[test]
fn crop_files_default_to_the_current_directory() {
    let p = ImageProcessor::new(config(None));
    assert_eq!(p.output_file_path("scans/IMG_001.png", 0), "./IMG_001_1.png");
    assert_eq!(p.output_file_path("scans/IMG_001.png", 11), "./IMG_001_12.png");
    assert_eq!(p.output_file_path("/data/a.b.png", 2), "./a.b_3.png");
    assert_eq!(p.output_file_path("image.png", 0), "./image_1.png");
    assert_eq!(p.output_dir(), ".");
}

#[test]
fn crop_files_of_a_path_without_stem() {
    let p = ImageProcessor::new(config(None));
    assert_eq!(p.output_file_path("/", 0), "./output_1.png");
    assert_eq!(p.debug_preview_path("/"), "./debug_debug.png");
}

#[test]
fn crop_files_go_to_the_output_dir() {
    let p = ImageProcessor::new(config(Some("results")));
    assert_eq!(p.output_file_path("scans/IMG_001.png", 1), "results/IMG_001_2.png");
    assert_eq!(p.debug_preview_path("scans/IMG_001.png"), "results/IMG_001_debug.png");
    assert_eq!(p.output_dir(), "results");
}

#[test]
fn crop_and_debug_names_differ() {
    let p = ImageProcessor::new(config(None));
    let debug = p.debug_preview_path("scans/IMG_7.png");
    assert_eq!(debug, "./IMG_7_debug.png");
    let crops: Vec<String> = (0..12).map(|i| p.output_file_path("scans/IMG_7.png", i)).collect();
    for (i, a) in crops.iter().enumerate() {
        assert_ne!(a, &debug);
        for b in crops.iter().skip(i + 1) {
            assert_ne!(a, b);
        }
    }
}

#[test]
fn processor_filters_by_prefix() {
    let p = ImageProcessor::new(config(None));
    assert!(p.accepts_file_name("IMG_0001.png"));
    assert!(!p.accepts_file_name("DSC_0001.png"));
    assert_eq!(p.config().prefix, "IMG_");
}

#[test]
fn crops_must_fit_the_image() {
    assert_eq!(check_crop(0, 0, 100, 50, 100, 50), Ok(CropRegion { x: 0, y: 0, width: 100, height: 50 }));
    assert_eq!(check_crop(1, 0, 100, 50, 100, 50), Err("Crop rectangle exceeds image bounds".to_string()));
    assert_eq!(check_crop(0, 1, 100, 50, 100, 50), Err("Crop rectangle exceeds image bounds".to_string()));
    assert!(check_crop(u32::MAX, 0, 1, 1, u32::MAX, 10).is_err());
}

#[test]
fn path_types() {
    assert_eq!(determine_path_type(true, false), Ok("folder"));
    assert_eq!(determine_path_type(false, true), Ok("file"));
    assert_eq!(determine_path_type(false, false), Err("Invalid path."));
}

#[test]
fn processed_files_compare_as_paths() {
    let mut done = ProcessedFiles::from_existing(vec!["in/IMG_1.png".to_string()]);
    assert_eq!(done.len(), 1);
    assert!(done.contains("in/IMG_1.png"));
    assert!(done.contains("in//IMG_1.png"));
    assert!(done.contains("in/./IMG_1.png"));
    assert!(!done.contains("in/IMG_2.png"));
    done.extend(vec!["out/IMG_2_1.png".to_string(), "out/IMG_2_2.png".to_string()]);
    assert_eq!(done.len(), 3);
    assert!(done.contains("out/IMG_2_2.png"));
    assert!(done.contains("in/IMG_1.png"));
}

#[test]
fn open_retries_back_off() {
    assert_eq!(after_failed_open(0), OpenRetry::Wait { attempts: 1, delay_ms: 200 });
    assert_eq!(after_failed_open(1), OpenRetry::Wait { attempts: 2, delay_ms: 400 });
    assert_eq!(after_failed_open(9), OpenRetry::Wait { attempts: 10, delay_ms: 102_400 });
    assert_eq!(after_failed_open(MAX_OPEN_RETRIES), OpenRetry::GiveUp);
    assert_eq!(after_failed_open(u32::MAX), OpenRetry::GiveUp);
}

#[test]
fn daemon_watcher_shares_its_configuration() {
    let w = DaemonWatcher::new(config(Some("out")));
    assert_eq!(w.config().output_dir, Some("out".to_string()));
    assert_eq!(w.processor().config().prefix, "IMG_");
}

#[test]
fn outline_is_two_pixels_thick() {
    assert_eq!(
        outline_frames(10, 20, 30, 40),
        vec![
            DrawRect { left: 10, top: 20, width: 30, height: 40 },
            DrawRect { left: 9, top: 19, width: 32, height: 42 },
        ]
    );
    assert_eq!(outline_frames(0, 0, 1, 1)[1], DrawRect { left: -1, top: -1, width: 3, height: 3 });
}

#[test]
fn stage_label_layout() {
    let b = label_box(20, 40, 800, "1. Blurred");
    assert_eq!(b.color, (100, 149, 237));
    assert_eq!(b.background, DrawRect { left: 20, top: 40, width: 800, height: 35 });
    assert_eq!(b.borders[1], DrawRect { left: 21, top: 41, width: 798, height: 33 });
    assert_eq!(
        b.step_marker,
        Some((
            DrawRect { left: 25, top: 47, width: 20, height: 20 },
            DrawRect { left: 27, top: 49, width: 16, height: 16 },
        ))
    );
    assert_eq!(b.glyphs.len(), 7);
    assert_eq!(b.glyphs[0], DrawRect { left: 55, top: 54, width: 7, height: 6 });
    assert_eq!(b.glyphs[1], DrawRect { left: 64, top: 56, width: 7, height: 4 });
}

#[test]
fn stage_label_skips_spaces() {
    let b = label_box(0, 0, 100, "6. Detected Candidates");
    assert_eq!(b.color, (255, 215, 0));
    assert_eq!(b.glyphs.len(), 18);
    // 'C' is the tenth character of the text, after the space
    assert_eq!(b.glyphs[8], DrawRect { left: 35 + 9 * 9, top: 14, width: 7, height: 6 });
    let plain = label_box(0, 0, 100, "X");
    assert_eq!(plain.color, (128, 128, 128));
    assert_eq!(plain.step_marker, None);
    assert!(plain.glyphs.is_empty());
}

#[test]
fn preview_grid_positions() {
    let g = preview_grid_layout(6, 2, 600).unwrap();
    assert_eq!(g.width, 1660);
    assert_eq!(g.height, 3 * 655 + 20);
    assert_eq!(g.tiles.len(), 6);
    assert_eq!(g.tiles[0], (20, 20));
    assert_eq!(g.tiles[3], (840, 675));
    assert_eq!(g.tiles[4], (20, 1330));
    assert!(preview_grid_layout(0, 2, 600).is_err());
    assert_eq!(preview_grid_layout(0, 2, 600).err(), Some("No images to create preview".to_string()));
}

#[test]
fn grey_pixels_become_grey_colours() {
    assert_eq!(gray_to_rgb_pixels(&vec![0, 7, 255]), vec![0, 0, 0, 7, 7, 7, 255, 255, 255]);
    assert!(gray_to_rgb_pixels(&vec![]).is_empty());
}

#[test]
fn stage_label_uses_unicode_uppercase() {
    let b = label_box(0, 0, 100, "3. Éa");
    assert_eq!(b.color, (255, 165, 0));
    assert_eq!(b.glyphs.len(), 2);
    assert_eq!(b.glyphs[0].height, 6);
    assert_eq!(b.glyphs[1].height, 4);
}

#[test]
fn preview_tiles_never_overlap() {
    let g = preview_grid_layout(7, 3, 250).unwrap();
    for i in 0..g.tiles.len() {
        for j in (i + 1)..g.tiles.len() {
            assert_ne!(g.tiles[i], g.tiles[j]);
        }
    }
    assert_eq!(g.height, 3 * (250 + 55) + 20);
}

#[test]
fn waits_double_each_time() {
    let mut previous = 100u64;
    for attempts in 0..MAX_OPEN_RETRIES {
        match after_failed_open(attempts) {
            OpenRetry::Wait { attempts: counted, delay_ms } => {
                assert_eq!(counted, attempts + 1);
                assert_eq!(delay_ms, 2 * previous);
                previous = delay_ms;
            }
            OpenRetry::GiveUp => panic!("gave up too early"),
        }
    }
}

#[test]
fn watcher_queues_only_new_prefixed_files() {
    assert!(should_queue(true, Some("IMG_1.png"), "IMG_"));
    assert!(!should_queue(false, Some("IMG_1.png"), "IMG_"));
    assert!(!should_queue(true, Some("DSC_1.png"), "IMG_"));
    assert!(!should_queue(true, None, "IMG_"));
}

#[test]
fn a_file_that_never_opens_is_given_up_on() {
    let mut attempts = 0u32;
    let mut waits = 0;
    loop {
        match after_failed_open(attempts) {
            OpenRetry::Wait { attempts: counted, .. } => {
                attempts = counted;
                waits += 1;
            }
            OpenRetry::GiveUp => break,
        }
    }
    assert_eq!(waits, MAX_OPEN_RETRIES);
    assert_eq!(attempts, MAX_OPEN_RETRIES);
}
