use gpu_buffers::signature::{
    acquire_path_signature, acquire_signature, creation_signature, dmabuf_creation_signature,
};

/// What the signature is, written with the string methods of std.
fn expected(text: &str, marks: &[&str], limit: usize) -> String {
    let mut frames: Vec<String> = Vec::new();
    for line in text.lines() {
        let line = line.trim();
        if !marks.iter().any(|mark| line.contains(mark)) {
            continue;
        }
        let symbol = line.split_once(": ").map(|(_, s)| s).unwrap_or(line);
        let symbol = symbol.split("::h").next().unwrap_or(symbol);
        let mut last: Vec<&str> = symbol.rsplit("::").take(2).collect();
        last.reverse();
        let short = last.join("::");
        if !short.is_empty() && !frames.contains(&short) {
            frames.push(short);
        }
        if frames.len() >= limit {
            break;
        }
    }
    if frames.is_empty() {
        "<other>".into()
    } else {
        frames.join(" <- ")
    }
}

const CREATION: [&str; 12] = [
    "swapchain",
    "::export",
    "import_dmabuf",
    "dmabuf",
    "render_frame",
    "allow_frame_flags",
    "drm::compositor",
    "drm::output",
    "renderer::element::surface",
    "cosmic_comp",
    "WlBuffer",
    "import_buffer",
];

const ACQUIRE: [&str; 9] = [
    "cosmic_comp::backend::kms",
    "drm::output",
    "drm::compositor",
    "allow_frame_flags",
    "apply_config",
    "initialize_output",
    "use_mode",
    "try_to_restore",
    "submit_composited_frame",
];

const BACKTRACE: &str = "   0: std::backtrace_rs::backtrace::trace\n\
             at /rustc/src/backtrace.rs:66:14\n\
   1: smithay::backend::allocator::dmabuf::DmabufBuilder::build::h0123456789abcdef\n\
   2: <T as smithay::backend::allocator::dmabuf::AsDmabuf>::export\r\n\
   3: smithay::backend::drm::compositor::DrmCompositor<A,F,U,G>::render_frame\n\
   4: smithay::backend::drm::compositor::DrmCompositor<A,F,U,G>::render_frame\n\
   5: smithay::backend::drm::output::DrmOutput::use_mode::h00\n\
   6: cosmic_comp::backend::kms::surface::SurfaceThreadState::apply_config\n\
   7: cosmic_comp::backend::kms::drm_helpers::submit_composited_frame\n\
   8: cosmic_comp::main\n\
   9: cosmic_comp::shell::grabs::menu::item::draw";

#[test]
fn creation_paths_are_told_by_six_frames() {
    assert_eq!(
        creation_signature(BACKTRACE),
        "DmabufBuilder::build <- AsDmabuf>::export <- \
         DrmCompositor<A,F,U,G>::render_frame <- DrmOutput::use_mode <- \
         SurfaceThreadState::apply_config <- drm_helpers::submit_composited_frame"
    );
    assert_eq!(creation_signature(BACKTRACE), expected(BACKTRACE, &CREATION, 6));
}

#[test]
fn acquire_paths_are_told_by_five_frames() {
    assert_eq!(
        acquire_path_signature(BACKTRACE),
        "DrmCompositor<A,F,U,G>::render_frame <- DrmOutput::use_mode <- \
         SurfaceThreadState::apply_config <- drm_helpers::submit_composited_frame"
    );
    assert_eq!(acquire_path_signature(BACKTRACE), expected(BACKTRACE, &ACQUIRE, 5));
}

#[test]
fn a_backtrace_without_relevant_frames_is_other() {
    for text in ["", "\n", "0: main\n1: start", "dma buf"] {
        assert_eq!(creation_signature(text), "<other>");
        assert_eq!(acquire_path_signature(text), "<other>");
    }
}

#[test]
fn odd_lines_are_told_as_well() {
    let samples = [
        "dmabuf",
        "  12: dmabuf  ",
        "dmabuf: ",
        "1: ::hdmabuf",
        "1: dmabuf::",
        "1: dmabuf:::x",
        "1: a::::dmabuf",
        "1: :::dmabuf::h",
        "1: use_mode: x::y::z",
        "use_mode\nuse_mode\r\n1: use_mode\r",
        "1: a::use_mode\n2: b::use_mode\n3: c::use_mode\n4: d::use_mode\n5: e::use_mode\n\
         6: f::use_mode",
        "\u{3000}1: drm::output\u{2003}\n\n\n",
        "WlBuffer::data\nimport_buffer\ncosmic_comp\nswapchain::x\n::export\nrender_frame\ndmabuf",
    ];
    for sample in samples {
        assert_eq!(creation_signature(sample), expected(sample, &CREATION, 6), "{sample:?}");
        assert_eq!(acquire_path_signature(sample), expected(sample, &ACQUIRE, 5), "{sample:?}");
    }
}

#[test]
fn every_mark_counts() {
    for mark in CREATION {
        let line = format!("3: x::{mark}y::z");
        assert_ne!(creation_signature(&line), "<other>", "{mark}");
    }
    for mark in ACQUIRE {
        let line = format!("3: x::{mark}y::z");
        assert_ne!(acquire_path_signature(&line), "<other>", "{mark}");
    }
}

#[test]
fn signatures_of_the_current_stack_are_not_empty() {
    let created = dmabuf_creation_signature();
    let acquired = acquire_signature();
    assert!(!created.is_empty() && !acquired.is_empty());
    assert!(created.split(" <- ").count() <= 6);
    assert!(acquired.split(" <- ").count() <= 5);
}
