use bintray_resource::options::{
    from_string_or_file, from_string_vec_or_file, keep_last_n, out_operation, out_options,
    ListSource, OutOperation, OutOptions, TextSource,
};

fn strings(items: &[&str]) -> Vec<String> {
    items.iter().map(|s| s.to_string()).collect()
}

#[test]
fn literal_text_is_taken_as_it_is() {
    assert_eq!(from_string_or_file(&TextSource::Literal(" x ".to_string())), " x ");
}

#[test]
fn text_from_a_file_is_trimmed() {
    assert_eq!(from_string_or_file(&TextSource::FileContents(" x \n".to_string())), "x");
    assert_eq!(from_string_or_file(&TextSource::FileContents(String::new())), "");
}

#[test]
fn list_forms() {
    assert_eq!(
        from_string_vec_or_file(&ListSource::List(strings(&[" a", "b "]))),
        strings(&[" a", "b "])
    );
    assert_eq!(from_string_vec_or_file(&ListSource::Single(" a ".to_string())), strings(&[" a "]));
    assert_eq!(
        from_string_vec_or_file(&ListSource::FileContents(" *.deb \n*.rpm\n".to_string())),
        strings(&["*.deb", "*.rpm"])
    );
    assert_eq!(
        from_string_vec_or_file(&ListSource::FileContents(String::new())),
        Vec::<String>::new()
    );
}

#[test]
fn switches_default() {
    assert_eq!(
        out_options(None, None, None, None),
        OutOptions {
            publish: true,
            override_existing: true,
            show_in_download_list: true,
            keep_existing_files: false,
        }
    );
}

#[test]
fn switches_as_given() {
    assert_eq!(
        out_options(Some(false), Some(false), Some(false), Some(true)),
        OutOptions {
            publish: false,
            override_existing: false,
            show_in_download_list: false,
            keep_existing_files: true,
        }
    );
    assert_eq!(
        out_options(Some(true), Some(true), Some(true), Some(false)),
        out_options(None, None, None, None)
    );
}

#[test]
fn operation_of_out() {
    assert_eq!(out_operation(None, None), OutOperation::Publish);
    assert_eq!(out_operation(Some(false), Some(false)), OutOperation::Publish);
    assert_eq!(out_operation(None, Some(true)), OutOperation::PruneVersions);
    assert_eq!(out_operation(Some(false), Some(true)), OutOperation::PruneVersions);
    assert_eq!(out_operation(Some(true), None), OutOperation::DeletePackage);
    assert_eq!(out_operation(Some(true), Some(true)), OutOperation::DeletePackage);
}

#[test]
fn retention_count_defaults_to_none_kept() {
    assert_eq!(keep_last_n(None), 0);
    assert_eq!(keep_last_n(Some(3)), 3);
}
