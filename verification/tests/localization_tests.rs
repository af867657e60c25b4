use boquilahub::error::Failure;
use boquilahub::localization::{translate, Key, Lang};

#[test]
fn translate_english() {
    assert_eq!(translate(Key::select_ai, &Lang::EN), "Select an AI");
    assert_eq!(translate(Key::select_ep, &Lang::EN), "Select a processor");
    assert_eq!(translate(Key::setup, &Lang::EN), "Setup");
    assert_eq!(translate(Key::deploy, &Lang::EN), "Deploy");
    assert_eq!(translate(Key::deployed_api, &Lang::EN), "Deployed API");
    assert_eq!(translate(Key::select_your_data, &Lang::EN), "Select your data");
    assert_eq!(translate(Key::folder, &Lang::EN), "Folder");
    assert_eq!(translate(Key::image, &Lang::EN), "Image");
    assert_eq!(translate(Key::video_file, &Lang::EN), "Video");
    assert_eq!(translate(Key::camera_feed, &Lang::EN), "Feed");
    assert_eq!(translate(Key::about, &Lang::EN), "About");
    assert_eq!(translate(Key::idiom, &Lang::EN), "Language");
    assert_eq!(translate(Key::models, &Lang::EN), "Models");
    assert_eq!(translate(Key::donate, &Lang::EN), "Donate");
    assert_eq!(translate(Key::source_code, &Lang::EN), "Source code");
    assert_eq!(translate(Key::analyze, &Lang::EN), "Analyze");
    assert_eq!(translate(Key::export, &Lang::EN), "Export");
    assert_eq!(translate(Key::analysis, &Lang::EN), "Analysis");
}

#[test]
fn translate_spanish() {
    assert_eq!(translate(Key::select_ai, &Lang::ES), "Selecciona una IA");
    assert_eq!(translate(Key::select_ep, &Lang::ES), "Selecciona un procesador");
    assert_eq!(translate(Key::setup, &Lang::ES), "Configuración");
    assert_eq!(translate(Key::deploy, &Lang::ES), "Desplegar");
    assert_eq!(translate(Key::deployed_api, &Lang::ES), "API desplegada");
    assert_eq!(translate(Key::select_your_data, &Lang::ES), "Selecciona tus datos");
    assert_eq!(translate(Key::folder, &Lang::ES), "Carpeta");
    assert_eq!(translate(Key::image, &Lang::ES), "Imagen");
    assert_eq!(translate(Key::video_file, &Lang::ES), "Video");
    assert_eq!(translate(Key::camera_feed, &Lang::ES), "Cámara");
    assert_eq!(translate(Key::about, &Lang::ES), "Información");
    assert_eq!(translate(Key::idiom, &Lang::ES), "Idioma");
    assert_eq!(translate(Key::models, &Lang::ES), "Modelos");
    assert_eq!(translate(Key::donate, &Lang::ES), "Donar");
    assert_eq!(translate(Key::source_code, &Lang::ES), "Código fuente");
    assert_eq!(translate(Key::analyze, &Lang::ES), "Analizar");
    assert_eq!(translate(Key::export, &Lang::ES), "Exportar");
    assert_eq!(translate(Key::analysis, &Lang::ES), "Análisis");
}

#[test]
fn languages_compare() {
    assert!(Lang::EN == Lang::EN);
    assert!(Lang::EN != Lang::ES);
}

#[test]
fn failures_have_messages() {
    assert_eq!(Failure::CorruptBundle.message(), "corrupt model bundle");
    assert_eq!(Failure::EngineFailure.message(), "inference engine failure");
    assert_eq!(Failure::DecodeFailure.message(), "malformed model output");
    assert_eq!(Failure::NetworkFailure.message(), "network failure");
    assert_eq!(Failure::ProtocolFailure.message(), "malformed remote response");
    assert_eq!(Failure::StreamFailure.message(), "video stream failure");
    assert_eq!(Failure::NotImplemented.message(), "task not implemented");
}
