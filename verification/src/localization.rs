//! Interface strings in the languages the shell offers.

use vstd::prelude::*;

verus! {

/// A language of the interface.
#[derive(Clone, Copy, Debug, PartialEq, Eq, Structural)]
pub enum Lang {
    EN,
    ES,
}

/// A piece of interface text, named by where it is shown.
#[derive(Clone, Copy, Debug)]
#[allow(non_camel_case_types)]
pub enum Key {
    select_ai,
    select_ep,
    setup,
    deploy,
    deployed_api,
    select_your_data,
    folder,
    image,
    video_file,
    camera_feed,
    about,
    idiom,
    models,
    donate,
    source_code,
    analyze,
    export,
    analysis,
}

/// The English wording of each key.
pub open spec fn english(key: Key) -> Seq<char> {
    match key {
        Key::select_ai => "Select an AI"@,
        Key::select_ep => "Select a processor"@,
        Key::setup => "Setup"@,
        Key::deploy => "Deploy"@,
        Key::deployed_api => "Deployed API"@,
        Key::select_your_data => "Select your data"@,
        Key::folder => "Folder"@,
        Key::image => "Image"@,
        Key::video_file => "Video"@,
        Key::camera_feed => "Feed"@,
        Key::about => "About"@,
        Key::idiom => "Language"@,
        Key::models => "Models"@,
        Key::donate => "Donate"@,
        Key::source_code => "Source code"@,
        Key::analyze => "Analyze"@,
        Key::export => "Export"@,
        Key::analysis => "Analysis"@,
    }
}

/// The Spanish wording of each key.
pub open spec fn spanish(key: Key) -> Seq<char> {
    match key {
        Key::select_ai => "Selecciona una IA"@,
        Key::select_ep => "Selecciona un procesador"@,
        Key::setup => "Configuración"@,
        Key::deploy => "Desplegar"@,
        Key::deployed_api => "API desplegada"@,
        Key::select_your_data => "Selecciona tus datos"@,
        Key::folder => "Carpeta"@,
        Key::image => "Imagen"@,
        Key::video_file => "Video"@,
        Key::camera_feed => "Cámara"@,
        Key::about => "Información"@,
        Key::idiom => "Idioma"@,
        Key::models => "Modelos"@,
        Key::donate => "Donar"@,
        Key::source_code => "Código fuente"@,
        Key::analyze => "Analizar"@,
        Key::export => "Exportar"@,
        Key::analysis => "Análisis"@,
    }
}

/// The wording of `key` in `lang`.
pub open spec fn translation(key: Key, lang: Lang) -> Seq<char> {
    match lang {
        Lang::EN => english(key),
        Lang::ES => spanish(key),
    }
}

/// Returns the text shown for `key` when the interface is in `lang`.
pub fn translate(key: Key, lang: &Lang) -> (text: &'static str)
    ensures
        text@ == translation(key, *lang),
{
    match key {
        Key::select_ai => match lang {
            Lang::EN => "Select an AI",
            Lang::ES => "Selecciona una IA",
        },
        Key::select_ep => match lang {
            Lang::EN => "Select a processor",
            Lang::ES => "Selecciona un procesador",
        },
        Key::setup => match lang {
            Lang::EN => "Setup",
            Lang::ES => "Configuración",
        },
        Key::deploy => match lang {
            Lang::EN => "Deploy",
            Lang::ES => "Desplegar",
        },
        Key::deployed_api => match lang {
            Lang::EN => "Deployed API",
            Lang::ES => "API desplegada",
        },
        Key::select_your_data => match lang {
            Lang::EN => "Select your data",
            Lang::ES => "Selecciona tus datos",
        },
        Key::folder => match lang {
            Lang::EN => "Folder",
            Lang::ES => "Carpeta",
        },
        Key::image => match lang {
            Lang::EN => "Image",
            Lang::ES => "Imagen",
        },
        Key::video_file => match lang {
            Lang::EN => "Video",
            Lang::ES => "Video",
        },
        Key::camera_feed => match lang {
            Lang::EN => "Feed",
            Lang::ES => "Cámara",
        },
        Key::about => match lang {
            Lang::EN => "About",
            Lang::ES => "Información",
        },
        Key::idiom => match lang {
            Lang::EN => "Language",
            Lang::ES => "Idioma",
        },
        Key::models => match lang {
            Lang::EN => "Models",
            Lang::ES => "Modelos",
        },
        Key::donate => match lang {
            Lang::EN => "Donate",
            Lang::ES => "Donar",
        },
        Key::source_code => match lang {
            Lang::EN => "Source code",
            Lang::ES => "Código fuente",
        },
        Key::analyze => match lang {
            Lang::EN => "Analyze",
            Lang::ES => "Analizar",
        },
        Key::export => match lang {
            Lang::EN => "Export",
            Lang::ES => "Exportar",
        },
        Key::analysis => match lang {
            Lang::EN => "Analysis",
            Lang::ES => "Análisis",
        },
    }
}

} // verus!
