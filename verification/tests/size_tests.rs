use elven::size::{parse_qpath, symbol_components, QPath, QPathError};

#[test]
fn parse_qpaths() {
    assert_eq!(
        parse_qpath(b"<std::path::Components as core::fmt::Debug>::fmt").unwrap(),
        QPath {
            qself: b"std::path::Components".to_vec(),
            trait_: b"core::fmt::Debug".to_vec(),
            pathy_bit: b"fmt".to_vec(),
        }
    );

    assert_eq!(
        parse_qpath(
            b"<<std::path::Components as core::fmt::Debug>::fmt::DebugHelper as core::fmt::Debug>::fmt"
        )
        .unwrap(),
        QPath {
            qself: b"<std::path::Components as core::fmt::Debug>::fmt::DebugHelper".to_vec(),
            trait_: b"core::fmt::Debug".to_vec(),
            pathy_bit: b"fmt".to_vec(),
        }
    );
}

#[test]
fn path_debug_helper() {
    let sym = b"_ZN106_$LT$$LT$std..path..Iter$u20$as$u20$core..fmt..Debug$GT$..fmt..DebugHelper$u20$as$u20$core..fmt..Debug$GT$3fmt17h4f87ac80fb33df05E";
    let components = symbol_components(sym, 6, true).unwrap();

    assert_eq!(components, b"std,path,Iter,fmt,DebugHelper,fmt".to_vec())
}

#[test]
fn plain_symbol_components() {
    // A plain path is split on "::" and padded with "_" to the depth.
    let components = symbol_components(b"alpha::beta", 4, true).unwrap();
    assert_eq!(components, b"alpha,beta,_,_".to_vec());
}

#[test]
fn non_csv_returns_demangled() {
    let sym = b"_ZN5alpha4beta17h0123456789abcdefE";
    let whole = symbol_components(sym, 4, false).unwrap();
    assert_eq!(whole, b"alpha::beta::h0123456789abcdef".to_vec());
}

#[test]
fn qpath_errors() {
    assert_eq!(parse_qpath(b"<a as b::c").unwrap_err(), QPathError::NoClosingAngle);
    assert_eq!(parse_qpath(b"<ab>::c").unwrap_err(), QPathError::NoAsSeparator);
    assert_eq!(parse_qpath(b"<a as b>c").unwrap_err(), QPathError::NoPathSeparator);
}
