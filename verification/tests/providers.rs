use vector_moogsoft::providers::Providers;

#[test]
fn provider_names() {
    assert_eq!(Providers::Http.get_component_name(), "http");
    assert_eq!(Providers::Moogsoft.get_component_name(), "moogsoft");
}
