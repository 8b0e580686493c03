use releasible::ansible::AnsibleError;
use releasible::ansible::Product;

#[test]
#[allow(non_snake_case)]
fn test_Product_FromStr() {
    assert_eq!(Product::from_str("ansible"), Ok(Product::Ansible));
    assert_eq!(Product::from_str("ansible-base"), Ok(Product::AnsibleBase));
    assert_eq!(Product::from_str("ansible-core"), Ok(Product::AnsibleCore));
    assert_eq!(
        Product::from_str("ansible-foo").unwrap_err(),
        AnsibleError::parse_error("Unknown product: ansible-foo".to_string()));
}

#[test]
#[allow(non_snake_case)]
fn test_Product_Display() {
    assert_eq!(Product::Ansible.to_string(), "ansible");
    assert_eq!(Product::AnsibleBase.to_string(), "ansible-base");
    assert_eq!(Product::AnsibleCore.to_string(), "ansible-core");
}

#[test]
fn product_names_read_back() {
    for product in [Product::Ansible, Product::AnsibleBase, Product::AnsibleCore] {
        assert_eq!(Product::from_str(&product.to_string()), Ok(product));
    }
}

#[test]
fn product_names_are_exact() {
    assert!(Product::from_str("").unwrap_err().is_parse_error());
    assert!(Product::from_str("Ansible").unwrap_err().is_parse_error());
    assert!(Product::from_str("ansible ").unwrap_err().is_parse_error());
    assert!(Product::from_str("ansible-").unwrap_err().is_parse_error());
    assert_eq!(
        Product::from_str("ansible_core").unwrap_err().get_parse_error(),
        Some("Unknown product: ansible_core".to_string()));
}
