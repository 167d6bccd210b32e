use interpolation_engine::speech::{audio_settings, voice_config_paths, AudioSettings};
use interpolation_engine::value::{Number, Object, Value};

fn num(i: i64) -> Value {
    Value::Number(Number::Int(i))
}

fn object(members: Vec<(&str, Value)>) -> Value {
    let mut o = Object::new();
    for (k, v) in members {
        o.insert(k.to_string(), v);
    }
    Value::Object(o)
}

#[test]
fn the_settings_of_a_voice_stand_beside_it() {
    assert_eq!(voice_config_paths("voices/amy.onnx"), vec!["voices/amy.onnx.json", "voices/amy.onnx.onnx.json"]);
    assert_eq!(voice_config_paths("voices/amy"), vec!["voices/amy.onnx.json"]);
    assert_eq!(voice_config_paths("onnx"), vec!["onnx.onnx.json"]);
    assert_eq!(voice_config_paths(".onnx"), vec![".onnx.json", ".onnx.onnx.json"]);
    assert_eq!(voice_config_paths(""), vec![".onnx.json"]);
}

#[test]
fn a_voice_without_settings_gives_the_usual_sound() {
    let usual = AudioSettings { rate: 22050, channels: 1 };
    assert_eq!(audio_settings(None), usual);
    assert_eq!(audio_settings(Some(&Value::Null)), usual);
    assert_eq!(audio_settings(Some(&object(vec![]))), usual);
    assert_eq!(audio_settings(Some(&object(vec![("sample_rate", Value::String("16000".to_string()))]))), usual);
}

#[test]
fn the_sound_is_read_from_the_audio_part_of_the_settings() {
    let cfg = object(vec![("sample_rate", num(8000)), ("audio", object(vec![("sample_rate", num(16000)), ("channels", num(2))]))]);
    assert_eq!(audio_settings(Some(&cfg)), AudioSettings { rate: 16000, channels: 2 });
    let flat = object(vec![("sample_rate", num(8000)), ("audio", num(3))]);
    assert_eq!(audio_settings(Some(&flat)), AudioSettings { rate: 8000, channels: 1 });
    let part = object(vec![("channels", num(2)), ("audio", object(vec![("sample_rate", num(44100))]))]);
    assert_eq!(audio_settings(Some(&part)), AudioSettings { rate: 44100, channels: 1 });
}
