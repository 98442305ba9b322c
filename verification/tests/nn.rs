use rustgrad::loss::MSELoss;
use rustgrad::nn::Activation;

#[test]
fn activation_names_are_stable() {
    assert_eq!(Activation::Relu.name(), "relu");
    assert_eq!(Activation::Sigmoid.name(), "sigmoid");
    assert_eq!(Activation::Tanh.name(), "tanh");
    assert_eq!(Activation::Softmax.name(), "softmax");
}

#[test]
fn mse_loss_is_a_unit_value() {
    assert_eq!(MSELoss::new(), MSELoss);
}
