use veloren_core::assets::{AssetStore, DotVoxLoader, ImageLoader, ResourceError};
use veloren_core::dirs::{dedup_ids, load_dir, DirEntry, DirHandle, DirSource};
use veloren_core::i18n::{
    find_manifest_ids, list_localizations, Language, LanguageMetadata, LanguageStore,
    LocalizationHandle, ManifestStore, LANG_EXTENSION, LANG_MANIFEST_FILE,
};
use veloren_core::menu::{trim_spaces, Controls, Event, FocusedField, Message, Screen};
use veloren_core::util::DeferredTracer;

fn meta(name: &str, ident: &str) -> LanguageMetadata {
    LanguageMetadata {
        language_name: String::from(name),
        language_identifier: String::from(ident),
    }
}

fn language(metadata: LanguageMetadata) -> Language {
    Language {
        string_map: Vec::new(),
        vector_map: Vec::new(),
        convert_utf8_to_ascii: false,
        metadata,
    }
}

#[test]
fn cache_set_then_get() {
    let mut store = AssetStore::new();
    store.set_cache_data("core.ui.background.png", &[1, 2, 3]);
    let bytes = store.get_cache_data("core.ui.background", "png").unwrap();
    assert_eq!(bytes, vec![1, 2, 3]);
    // replacing rebinds the same name
    store.set_cache_data("core.ui.background.png", &[9]);
    let bytes = store.get_cache_data("core.ui.background", "png").unwrap();
    assert_eq!(bytes, vec![9]);
}

#[test]
fn cache_miss_reports_full_name() {
    let store = AssetStore::new();
    match store.get_cache_data("core.missing", "png") {
        Err(ResourceError::NotExists(name)) => assert_eq!(name, "core.missing.png"),
        other => panic!("wrong result {:?}", other.is_ok()),
    }
}

#[test]
fn cache_dir_markers() {
    let mut store = AssetStore::new();
    store.set_cache_dir("voxygen.background");
    store.set_cache_dir("voxygen.element");
    assert_eq!(store.dirs.len(), 2);
}

#[test]
fn image_loader_rejects_unknown_extension() {
    match ImageLoader::load(&[0, 1, 2], "nonsense") {
        Err(veloren_core::assets::AssetError::UnknownFormat(ext)) => {
            assert_eq!(ext, "nonsense")
        },
        other => panic!("wrong result {:?}", other.is_ok()),
    }
}

#[test]
fn image_loader_decodes_a_png() {
    // produce a real 2x1 png with the image crate, then decode it through
    // the loader
    let img = image::DynamicImage::new_rgb8(2, 1);
    let mut png: Vec<u8> = Vec::new();
    img.write_to(&mut std::io::Cursor::new(&mut png), image::ImageFormat::Png).unwrap();
    let image = ImageLoader::load(&png, "png").unwrap();
    let shared = image.to_image();
    assert_eq!(shared.width(), 2);
    assert_eq!(shared.height(), 1);
    // garbage in a known format is a decode error
    assert!(ImageLoader::load(&[0, 1, 2], "png").is_err());
}

#[test]
fn vox_loader_rejects_garbage() {
    match DotVoxLoader::load(&[0, 1, 2, 3], "vox") {
        Err(veloren_core::assets::AssetError::Decode) => {},
        other => panic!("wrong result {:?}", other.is_ok()),
    }
}

fn sample_source() -> DirSource {
    DirSource {
        listings: vec![
            (
                String::from("voxygen.background"),
                vec![
                    DirEntry::File(String::from("voxygen.background.bg_1"), String::from("png")),
                    DirEntry::File(String::from("voxygen.background.notes"), String::from("txt")),
                    DirEntry::File(String::from("voxygen.background.bg_2"), String::from("png")),
                    DirEntry::Directory(String::from("voxygen.background.extra")),
                ],
            ),
            (
                String::from("voxygen.i18n"),
                vec![
                    DirEntry::Directory(String::from("voxygen.i18n.en")),
                    DirEntry::Directory(String::from("voxygen.i18n.de")),
                    DirEntry::Directory(String::from("voxygen.i18n.broken")),
                ],
            ),
        ],
        files: vec![
            (
                format!("voxygen.i18n.en.{}", LANG_MANIFEST_FILE),
                String::from(LANG_EXTENSION),
            ),
            (
                format!("voxygen.i18n.de.{}", LANG_MANIFEST_FILE),
                String::from(LANG_EXTENSION),
            ),
        ],
    }
}

#[test]
fn load_dir_lists_matching_files() {
    let source = sample_source();
    let handle: DirHandle =
        load_dir::<veloren_core::assets::Image>(&source, "voxygen.background.*").unwrap();
    assert_eq!(handle.id(), "voxygen.background");
    let ids: Vec<&str> = handle.ids().iter().map(|s| s.as_str()).collect();
    assert_eq!(ids, vec!["voxygen.background.bg_1", "voxygen.background.bg_2"]);
    assert!(load_dir::<veloren_core::assets::Image>(&source, "voxygen.absent").is_err());
}

#[test]
fn dedup_keeps_first_occurrences() {
    let ids = vec![
        String::from("a"),
        String::from("b"),
        String::from("a"),
        String::from("c"),
        String::from("b"),
    ];
    let out = dedup_ids(ids);
    let out: Vec<&str> = out.iter().map(|s| s.as_str()).collect();
    assert_eq!(out, vec!["a", "b", "c"]);
}

#[test]
fn dir_handle_walks_the_cache() {
    let mut store = AssetStore::new();
    store.set_cache_data("one", &[1]);
    let handle = DirHandle::new(
        String::from("dir"),
        vec![String::from("one"), String::from("two")],
    );
    let cached = handle.iter_cached(&store);
    assert_eq!(cached.len(), 1);
    assert_eq!(cached[0], "one");
    let all = handle.iter(&store);
    assert_eq!(all.len(), 2);
    assert_eq!(all[0].as_ref().unwrap(), &vec![1]);
    assert!(all[1].is_err());
}

#[test]
fn list_localizations_finds_manifests_with_metadata() {
    let source = sample_source();
    let specs = find_manifest_ids(&source, "voxygen.i18n").unwrap();
    let specs: Vec<&str> = specs.iter().map(|s| s.as_str()).collect();
    assert_eq!(
        specs,
        vec!["voxygen.i18n.en._manifest", "voxygen.i18n.de._manifest"]
    );
    let manifests = ManifestStore {
        entries: vec![
            (String::from("voxygen.i18n.en._manifest"), meta("English", "en")),
            (String::from("voxygen.i18n.de._manifest"), meta("Deutsch", "de")),
        ],
    };
    let listed = list_localizations(&source, &manifests);
    assert_eq!(listed.len(), 2);
    assert_eq!(listed[0].language_identifier, "en");
    assert_eq!(listed[1].language_identifier, "de");
}

#[test]
fn language_lookup_and_variations() {
    let mut lang = language(meta("English", "en"));
    lang.string_map.push((String::from("main.tip"), String::from("Tip")));
    lang.vector_map.push((
        String::from("loading.tips"),
        vec![String::from("one"), String::from("two"), String::from("three")],
    ));
    lang.vector_map.push((String::from("empty"), Vec::new()));
    assert_eq!(lang.get("main.tip").unwrap(), "Tip");
    assert!(lang.get("missing").is_none());
    assert_eq!(lang.get_variation("loading.tips", 0).unwrap(), "one");
    assert_eq!(lang.get_variation("loading.tips", 4).unwrap(), "two");
    assert!(lang.get_variation("empty", 0).is_none());
}

#[test]
fn localization_falls_back_to_reference() {
    let mut active = language(meta("Deutsch", "de"));
    active.string_map.push((String::from("both"), String::from("beide")));
    let mut fallback = language(meta("English", "en"));
    fallback.string_map.push((String::from("both"), String::from("both!")));
    fallback.string_map.push((String::from("only.en"), String::from("english only")));
    let mut handle = LocalizationHandle {
        active,
        fallback: Some(fallback),
        use_english_fallback: false,
    };
    {
        let guard = handle.read();
        assert_eq!(guard.get("both"), "beide");
        // fallback disabled: an unknown key comes back as itself
        assert_eq!(guard.get("only.en"), "only.en");
    }
    handle.set_english_fallback(true);
    {
        let guard = handle.read();
        assert_eq!(guard.get("both"), "beide");
        assert_eq!(guard.get("only.en"), "english only");
        assert_eq!(guard.metadata().language_identifier, "de");
    }
}

#[test]
fn menu_login_attempt_trims_username() {
    let servers = vec![String::from("srv.one"), String::from("srv.two")];
    let identifiers = vec![String::from("en"), String::from("de")];
    let mut controls = Controls::new(
        String::from("  player one \t"),
        String::from("srv.two"),
        &servers,
        &identifiers,
        &String::from("de"),
    );
    assert_eq!(controls.selected_server_index, Some(1));
    assert_eq!(controls.selected_language_index, Some(1));
    let mut events = Vec::new();
    controls.update(Message::Multiplayer, &mut events, &servers, &Vec::new());
    assert!(matches!(controls.screen, Screen::Connecting));
    match &events[0] {
        Event::LoginAttempt { username, password, server_address } => {
            assert_eq!(username, "player one");
            assert_eq!(password, "");
            assert_eq!(server_address, "srv.two");
        },
        other => panic!("wrong event {:?}", other),
    }
    controls.update(Message::CancelConnect, &mut events, &servers, &Vec::new());
    assert!(matches!(controls.screen, Screen::Login { .. }));
    assert!(matches!(events[1], Event::CancelLoginAttempt));
}

#[test]
fn menu_tab_cycles_login_focus() {
    let servers = Vec::new();
    let identifiers = Vec::new();
    let mut controls = Controls::new(
        String::new(),
        String::new(),
        &servers,
        &identifiers,
        &String::new(),
    );
    for expected in [FocusedField::Password, FocusedField::Server, FocusedField::Username] {
        controls.tab();
        match &controls.screen {
            Screen::Login { focus, .. } => assert_eq!(*focus, expected),
            other => panic!("wrong screen {:?}", other),
        }
    }
}

#[test]
fn menu_connection_error_lands_on_login() {
    let servers = Vec::new();
    let mut controls = Controls::new(
        String::new(),
        String::new(),
        &servers,
        &servers,
        &String::new(),
    );
    let mut events = Vec::new();
    controls.update(Message::Multiplayer, &mut events, &servers, &Vec::new());
    controls.connection_error(String::from("no route"));
    match &controls.screen {
        Screen::Login { error: Some(e), .. } => assert_eq!(e, "no route"),
        other => panic!("wrong screen {:?}", other),
    }
    controls.update(Message::CloseError, &mut events, &servers, &Vec::new());
    match &controls.screen {
        Screen::Login { error: None, .. } => {},
        other => panic!("wrong screen {:?}", other),
    }
}

#[test]
fn trim_handles_edges() {
    assert_eq!(trim_spaces(""), "");
    assert_eq!(trim_spaces("   "), "");
    assert_eq!(trim_spaces("a"), "a");
    assert_eq!(trim_spaces("\t a b \n"), "a b");
}

#[test]
fn tracer_batches_counts() {
    let mut tracer = DeferredTracer::new(0);
    for _ in 0..3 {
        tracer.log(7, 10);
    }
    tracer.log(9, 20);
    // not yet due
    assert!(tracer.print(500).is_none());
    // due by time
    let batch = tracer.print(1500).unwrap();
    assert_eq!(batch.len(), 2);
    assert!(batch.contains(&(7, 3)));
    assert!(batch.contains(&(9, 1)));
    // quiet after the batch: a due print releases nothing new
    assert_eq!(tracer.print(3000).unwrap().len(), 0);
    tracer.log(7, 3000);
    assert!(tracer.print(3500).is_none());
}

#[test]
fn handle_load_takes_active_and_fallback() {
    let mut en = language(meta("English", "en"));
    en.string_map.push((String::from("hello"), String::from("Hello")));
    let mut de = language(meta("Deutsch", "de"));
    de.string_map.push((String::from("hello"), String::from("Hallo")));
    let mut store = LanguageStore {
        languages: vec![
            (String::from("voxygen.i18n.en"), en),
            (String::from("voxygen.i18n.de"), de),
        ],
    };
    let mut handle = LocalizationHandle::load(&mut store, "de").unwrap();
    handle.set_english_fallback(true);
    let guard = handle.read();
    assert_eq!(guard.get("hello"), "Hallo");
    assert_eq!(guard.metadata().language_identifier, "de");
    // the languages left the store
    assert!(store.languages.is_empty());
    // an absent language is the one error, with the full key
    let mut empty = LanguageStore { languages: Vec::new() };
    assert!(LocalizationHandle::load(&mut empty, "fr").is_err());
}

#[test]
fn missing_entries_against_the_reference() {
    let mut active = language(meta("Deutsch", "de"));
    active.string_map.push((String::from("both"), String::from("beide")));
    let mut fallback = language(meta("English", "en"));
    fallback.string_map.push((String::from("both"), String::from("both!")));
    fallback.string_map.push((String::from("only.en"), String::from("english only")));
    fallback.vector_map.push((String::from("tips"), vec![String::from("t")]));
    let handle = LocalizationHandle { active, fallback: Some(fallback), use_english_fallback: true };
    let guard = handle.read();
    let (strings, vectors) = guard.list_missing_entries();
    assert_eq!(strings, vec![String::from("only.en")]);
    assert_eq!(vectors, vec![String::from("tips")]);
}

#[test]
fn missing_entries_listed_once_despite_duplicates() {
    let active = language(meta("Deutsch", "de"));
    let mut fallback = language(meta("English", "en"));
    // a key bound twice in the reference tables is still reported once
    fallback.string_map.push((String::from("dup"), String::from("first")));
    fallback.string_map.push((String::from("dup"), String::from("second")));
    fallback.string_map.push((String::from("solo"), String::from("alone")));
    let handle = LocalizationHandle { active, fallback: Some(fallback), use_english_fallback: true };
    let guard = handle.read();
    let (strings, vectors) = guard.list_missing_entries();
    assert_eq!(strings, vec![String::from("dup"), String::from("solo")]);
    assert!(vectors.is_empty());
}
