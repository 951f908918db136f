use obadgen::arguments::{find_duplicate_short_options, verbosity};
use obadgen::environment::Environment;
use obadgen::settings::{FailOn, Overwrite, Settings, ShowRetrieved, Verbosity, LEVELS};
use obadgen::signature::{Algorithm, AlgorithmType};
use obadgen::util::defaults::{
    default_bool, default_from_u128, default_from_u16, default_from_u32, default_from_u64,
    default_from_u8, default_u128, default_u16, default_u32, default_u64, default_u8,
};
use obadgen::util::test::is_normal;

const ALL: [Verbosity; 6] = [
    Verbosity::Off,
    Verbosity::Errors,
    Verbosity::Warnings,
    Verbosity::Info,
    Verbosity::Debug,
    Verbosity::Trace,
];

#[test]
fn verbosity_places() {
    assert_eq!(LEVELS, 6);
    for (i, v) in ALL.iter().enumerate() {
        assert_eq!(v.index(), i);
        assert_eq!(Verbosity::at(i), *v);
    }
    assert_eq!(Verbosity::default(), Verbosity::Info);
}

#[test]
fn verbosity_up() {
    assert_eq!(Verbosity::Info.up_max(0), Verbosity::Info);
    assert_eq!(Verbosity::Info.up_max(1), Verbosity::Debug);
    assert_eq!(Verbosity::Info.up_max(2), Verbosity::Trace);
    assert_eq!(Verbosity::Info.up_max(3), Verbosity::Off);
    assert_eq!(Verbosity::Debug.up_max(255), Verbosity::at((4 + 255) % 6));
    assert_eq!(Verbosity::Trace.up_max(usize::MAX), Verbosity::at(usize::MAX % 6));
    assert_eq!(Verbosity::Off.up_max(usize::MAX), Verbosity::at(usize::MAX % 6));
}

#[test]
fn verbosity_down() {
    assert_eq!(Verbosity::Info.down_max(0), Verbosity::Info);
    assert_eq!(Verbosity::Info.down_max(1), Verbosity::Warnings);
    assert_eq!(Verbosity::Info.down_max(3), Verbosity::Off);
    assert_eq!(Verbosity::Info.down_max(4), Verbosity::Off);
    assert_eq!(Verbosity::Trace.down_max(usize::MAX), Verbosity::Off);
}

#[test]
fn switches_as_values() {
    assert_eq!(Verbosity::from(true), Verbosity::Info);
    assert_eq!(Verbosity::from(false), Verbosity::Warnings);
    assert_eq!(FailOn::from(true), FailOn::AnyMissingValue);
    assert_eq!(FailOn::from(false), FailOn::Error);
}

#[test]
fn overwrite_main_and_alt() {
    assert_eq!(Overwrite::default(), Overwrite::All);
    let table = [
        (Overwrite::All, true, true),
        (Overwrite::Nothing, false, false),
        (Overwrite::Main, true, false),
        (Overwrite::Alternative, false, true),
    ];
    for (o, main, alt) in table {
        assert_eq!(o.main(), main);
        assert_eq!(o.alt(), alt);
    }
}

#[test]
fn default_settings_and_stub() {
    for s in [Settings::default(), Environment::stub().settings] {
        assert_eq!(s.verbosity, Verbosity::Info);
        assert_eq!(s.sign_alg, Algorithm::Unsigned);
        assert!(s.assertion_loc.is_none());
        assert!(s.sign_key_loc.is_none());
        assert!(s.cert_loc.is_none());
        assert!(s.source_image_loc.is_none());
        assert!(s.baked_loc.is_none());
    }
    let mut s = Settings::default();
    s.baked_loc = Some("out.png".to_owned());
    s.verbosity = Verbosity::Trace;
    let e = Environment::new(s);
    assert_eq!(e.settings.baked_loc.as_deref(), Some("out.png"));
    assert_eq!(e.settings.verbosity, Verbosity::Trace);
    assert!(matches!(ShowRetrieved::Primary(None), ShowRetrieved::Primary(None)));
}

#[test]
fn algorithm_families() {
    assert_eq!(Algorithm::default(), Algorithm::Unsigned);
    assert_eq!(AlgorithmType::default(), AlgorithmType::Unsigned);
    assert_eq!(Algorithm::Unsigned.algorithm_type(), AlgorithmType::Unsigned);
    assert_eq!(Algorithm::RS256.algorithm_type(), AlgorithmType::RSA);
    assert_eq!(Algorithm::RS384.algorithm_type(), AlgorithmType::RSA);
    assert_eq!(Algorithm::RS512.algorithm_type(), AlgorithmType::RSA);
    assert_eq!(Algorithm::ES256.algorithm_type(), AlgorithmType::ECDSA);
    assert_eq!(Algorithm::ES384.algorithm_type(), AlgorithmType::ECDSA);
}

#[test]
fn fixed_defaults() {
    assert_eq!(default_u128::<{ u128::MAX }>(), u128::MAX);
    assert_eq!(default_u64::<7>(), 7);
    assert_eq!(default_u32::<7>(), 7);
    assert_eq!(default_u16::<0>(), 0);
    assert_eq!(default_u8::<255>(), 255);
    assert!(default_bool::<true>());
    assert!(!default_bool::<false>());
    assert_eq!(default_from_u128::<u128, 5>(), 5u128);
    assert_eq!(default_from_u64::<u128, 5>(), 5u128);
    assert_eq!(default_from_u32::<u64, 5>(), 5u64);
    assert_eq!(default_from_u16::<u32, 5>(), 5u32);
    assert_eq!(default_from_u8::<u16, 5>(), 5u16);
}

#[test]
fn library_types_are_normal() {
    is_normal::<Settings>();
    is_normal::<Verbosity>();
    is_normal::<obadgen::patcher::ImageType>();
    is_normal::<obadgen::patcher::ToImageTypeError>();
    is_normal::<obadgen::patcher::PatcherError>();
    is_normal::<obadgen::process::ProcessError>();
}

#[test]
fn good_errors() {
    obadgen::util::test::is_good_error::<std::io::Error>();
    obadgen::util::test::is_good_error::<std::fmt::Error>();
}

#[test]
fn verbosity_of_a_run() {
    assert_eq!(verbosity(true, Some(Verbosity::Trace), true, 3), Verbosity::Off);
    assert_eq!(verbosity(false, Some(Verbosity::Errors), true, 3), Verbosity::Errors);
    assert_eq!(verbosity(false, None, false, 0), Verbosity::Info);
    assert_eq!(verbosity(false, None, false, 1), Verbosity::Debug);
    assert_eq!(verbosity(false, None, false, 2), Verbosity::Trace);
    assert_eq!(verbosity(false, None, false, 3), Verbosity::Off);
    assert_eq!(verbosity(false, None, true, 0), Verbosity::Debug);
    assert_eq!(verbosity(false, None, true, 1), Verbosity::Trace);
    assert_eq!(verbosity(false, None, true, 255), Verbosity::at((4 + 255) % 6));
}

#[test]
fn duplicate_short_options() {
    assert_eq!(find_duplicate_short_options(&vec![]), Vec::<char>::new());
    assert_eq!(find_duplicate_short_options(&vec!['V', 'a', 'k', 's', 'b', 'v', 'F', 'q', 'h']), Vec::<char>::new());
    assert_eq!(find_duplicate_short_options(&vec!['a', 'b', 'a']), vec!['a']);
    assert_eq!(find_duplicate_short_options(&vec!['b', 'a', 'b', 'a', 'a', 'c', 'b']), vec!['b', 'a']);
    assert_eq!(find_duplicate_short_options(&vec!['v', 'V']), Vec::<char>::new());
}

#[test]
fn mod_normal_types() {
    is_normal::<obadgen::patcher::PatcherError>();
}

#[test]
fn process_normal_types() {
    is_normal::<obadgen::process::ProcessError>();
}
