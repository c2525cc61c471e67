use base64::Engine;
use carokia::face::{
    expression_with_lowercase, face_detection_prompt, faces_can_be_cut, parse_face_response,
    try_extract_expression, try_parse_face_response, FaceDescription, FaceResult,
};
use carokia::perception::{
    encode_image, extract_objects, scene_description_prompt, FfmpegCamera, MemoryCamera,
    StubProcessor, VisionConfig, VisionResult,
};
use carokia::types::Modality;

#[test]
fn encode_image_produces_base64() {
    let data = vec![0xFF, 0xD8, 0xFF, 0xE0];
    let encoded = encode_image(&data);
    assert!(!encoded.is_empty());
    let decoded = base64::engine::general_purpose::STANDARD.decode(&encoded).unwrap();
    assert_eq!(decoded, data);
    assert_eq!(encoded, "/9j/4A==");
}

#[test]
fn extract_objects_empty_when_no_prefix() {
    let desc = "Just a plain description with no structured output.";
    let objects = extract_objects(desc);
    assert!(objects.is_empty());
}

#[test]
fn extract_objects_first_list_trimmed_without_empties() {
    let desc = "intro\n  Objects:  cup , ,plate,\nObjects: ignored";
    assert_eq!(extract_objects(desc), vec!["cup", "plate"]);
}

#[test]
fn vision_result_construction() {
    let result = VisionResult {
        description: "A cat on a table".to_string(),
        objects: vec!["cat".to_string(), "table".to_string()],
        timestamp_ms: 1234567890,
    };
    assert_eq!(result.objects.len(), 2);
    assert_eq!(result.description, "A cat on a table");
}

#[test]
fn vision_result_from_description() {
    let r = VisionResult::from_description("A room.\nObjects: chair, lamp".to_string(), 7);
    assert_eq!(r.objects, vec!["chair", "lamp"]);
    assert_eq!(r.timestamp_ms, 7);
}

#[test]
fn vision_urls_and_prompt() {
    let c = VisionConfig::default();
    assert_eq!(c.api_url(), "http://localhost:11434");
    assert_eq!(c.generate_url(), "http://localhost:11434/api/generate");
    assert!(scene_description_prompt().contains("after 'Objects:' on a new line"));
}

#[test]
fn ffmpeg_capture_args() {
    let cam = FfmpegCamera::new(2).with_resolution(1280, 720).with_input_format("v4l2");
    assert_eq!(
        cam.capture_args(),
        vec![
            "-f", "v4l2", "-video_size", "1280x720", "-framerate", "1", "-i", "2:none",
            "-frames:v", "1", "-f", "image2pipe", "-vcodec", "mjpeg", "-",
        ]
    );
    let default = FfmpegCamera::new(0);
    assert_eq!(default.width, 640);
    assert_eq!(default.height, 480);
    assert_eq!(default.input_format, "avfoundation");
}

#[test]
fn memory_camera_and_stub_processor() {
    let cam = MemoryCamera::new(vec![1, 2, 3]);
    assert_eq!(cam.data, vec![1, 2, 3]);
    let p = StubProcessor::new(Modality::Lidar);
    assert_eq!(p.supported_modality(), Modality::Lidar);
}

#[test]
fn parse_face_response_with_faces() {
    let response = "\
Count: 2
Face 1: Young adult, approximately 25 years old. Expression: smiling, looking at camera.
Face 2: Middle-aged person, approximately 45 years old. Expression: neutral, looking away.";

    let (count, faces) = parse_face_response(response);
    assert_eq!(count, 2);
    assert_eq!(faces.len(), 2);
    assert_eq!(faces[0].expression, "smiling");
    assert_eq!(faces[1].expression, "neutral");
    assert_eq!(
        faces[0].description,
        "Young adult, approximately 25 years old. Expression: smiling, looking at camera."
    );
}

#[test]
fn parse_face_response_no_faces() {
    let response = "No faces detected. The image shows an empty room.";
    let (count, faces) = parse_face_response(response);
    assert_eq!(count, 0);
    assert!(faces.is_empty());
}

#[test]
fn parse_face_response_infers_count() {
    let response = "\
Face 1: A person smiling. Expression: happy
Face 2: A person frowning. Expression: sad";

    let (count, faces) = parse_face_response(response);
    assert_eq!(count, 2);
    assert_eq!(faces.len(), 2);
}

#[test]
fn parse_face_response_no_faces_overrides_lines() {
    let response = "Count: 1\nFace 1: blurry. Expression: calm\nActually 0 faces.";
    let (count, faces) = parse_face_response(response);
    assert_eq!(count, 0);
    assert!(faces.is_empty());
}

#[test]
fn parse_face_response_last_count_wins_and_bad_count_ignored() {
    let response = "Count: 3\nCount: +4\nCount: many\nFace 1: x. Expression: grin";
    let (count, faces) = parse_face_response(response);
    assert_eq!(count, 4);
    assert_eq!(faces[0].expression, "grin");
}

#[test]
fn try_parse_agrees_on_ascii() {
    let response = "Face 1: someone. Expression: bored";
    assert!(faces_can_be_cut(response));
    let (count, faces) = try_parse_face_response(response).unwrap();
    assert_eq!(count, 1);
    assert_eq!(faces[0], FaceDescription { description: "someone. Expression: bored".to_string(), expression: "bored".to_string() });
}

#[test]
fn expression_marker_found_in_lowercase_form() {
    assert_eq!(expression_with_lowercase("X EXPRESSION: Wry;", "x expression: wry;"), "Wry");
    assert_eq!(expression_with_lowercase("no marker", "no marker"), "unknown");
    assert_eq!(try_extract_expression("Expression:   .").unwrap(), "");
}

#[test]
fn expression_cut_that_would_split_a_character_is_refused() {
    // 'İ' lowercases to two characters (three bytes), which moves the marker
    // one byte to the right of where it sits in the line itself.
    let line = "İexpression:é";
    assert!(try_extract_expression(line).is_none());
    assert!(!faces_can_be_cut("Face 1: İexpression:é"));
    assert!(try_parse_face_response("Face 1: İexpression:é").is_none());
}

#[test]
fn face_result_holds_parse() {
    let raw = "Count: 1\nFace 1: A person. Expression: neutral".to_string();
    let (count, faces) = parse_face_response(&raw);
    let result = FaceResult { count, faces, raw_response: raw.clone() };
    assert_eq!(result.count, 1);
    assert_eq!(result.faces[0].expression, "neutral");
    assert!(face_detection_prompt().starts_with("How many human faces"));
}
