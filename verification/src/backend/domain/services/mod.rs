pub mod scorer;
